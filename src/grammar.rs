use vstd::prelude::*;

use crate::token::{keyword_of, LiteralSpec, TokenSpec, TokenType};

verus! {

/// Whether `c` is an ASCII decimal digit.
pub open spec fn is_digit(c: char) -> bool {
    '0' <= c && c <= '9'
}

/// Whether `c` has the Unicode Alphabetic property.
pub uninterp spec fn alphabetic(c: char) -> bool;

/// Relies on char::is_alphabetic: whether the character has the Unicode
/// Alphabetic property, which depends on the character alone.
#[verifier::external_body]
pub(crate) fn is_alphabetic(c: char) -> (r: bool)
    ensures
        r == alphabetic(c),
{
    c.is_alphabetic()
}

/// A fatal scan error, with the line on which it was detected.
#[derive(Clone, Copy, Debug, PartialEq, Eq, Structural)]
pub enum ScanError {
    /// No rule starts with this character.
    UnexpectedCharacter { line: usize, character: char },
    /// The input ended inside a string literal.
    UnterminatedString { line: usize },
    /// The input ended inside a block comment.
    UnclosedComment { line: usize },
}

impl ScanError {
    /// The line on which the error was detected.
    pub fn line(&self) -> (r: usize)
        ensures
            r == match *self {
                ScanError::UnexpectedCharacter { line, .. } => line,
                ScanError::UnterminatedString { line } => line,
                ScanError::UnclosedComment { line } => line,
            },
    {
        match *self {
            ScanError::UnexpectedCharacter { line, .. } => line,
            ScanError::UnterminatedString { line } => line,
            ScanError::UnclosedComment { line } => line,
        }
    }

    /// A human-readable description of the error.
    pub fn message(&self) -> (r: &'static str)
        ensures
            r@ == match *self {
                ScanError::UnexpectedCharacter { .. } => "Unexpected character."@,
                ScanError::UnterminatedString { .. } => "Unterminated string."@,
                ScanError::UnclosedComment { .. } => "Unclosed C style comment."@,
            },
    {
        match *self {
            ScanError::UnexpectedCharacter { .. } => "Unexpected character.",
            ScanError::UnterminatedString { .. } => "Unterminated string.",
            ScanError::UnclosedComment { .. } => "Unclosed C style comment.",
        }
    }
}

/// The character at `i`, or `'\0'` past either end of `s`.
pub open spec fn char_at(s: Seq<char>, i: int) -> char {
    if 0 <= i < s.len() {
        s[i]
    } else {
        '\0'
    }
}

/// The number of newline characters in `s`.
pub open spec fn newlines(s: Seq<char>) -> nat
    decreases s.len(),
{
    if s.len() == 0 {
        0
    } else {
        newlines(s.drop_last()) + if s.last() == '\n' {
            1nat
        } else {
            0nat
        }
    }
}

/// The 1-based line on which position `p` of `s` lies.
pub open spec fn line_at(s: Seq<char>, p: int) -> nat {
    1 + newlines(s.subrange(0, p))
}

/// The end of the run of ASCII digits that starts at `i`.
pub open spec fn digits_end(s: Seq<char>, i: int) -> int
    decreases s.len() - i,
{
    if 0 <= i < s.len() && is_digit(s[i]) {
        digits_end(s, i + 1)
    } else {
        i
    }
}

/// The end of the run of alphabetic characters that starts at `i`.
pub open spec fn alpha_end(s: Seq<char>, i: int) -> int
    decreases s.len() - i,
{
    if 0 <= i < s.len() && alphabetic(s[i]) {
        alpha_end(s, i + 1)
    } else {
        i
    }
}

/// The first newline at or after `i`, or the end of `s`.
pub open spec fn line_end(s: Seq<char>, i: int) -> int
    decreases s.len() - i,
{
    if 0 <= i < s.len() && s[i] != '\n' {
        line_end(s, i + 1)
    } else {
        i
    }
}

/// The first double quote at or after `i`, or the end of `s`.
pub open spec fn quote_end(s: Seq<char>, i: int) -> int
    decreases s.len() - i,
{
    if 0 <= i < s.len() && s[i] != '"' {
        quote_end(s, i + 1)
    } else {
        i
    }
}

/// The first `*/` at or after `i`, or the end of `s`.
pub open spec fn comment_end(s: Seq<char>, i: int) -> int
    decreases s.len() - i,
{
    if 0 <= i < s.len() && !(s[i] == '*' && char_at(s, i + 1) == '/') {
        comment_end(s, i + 1)
    } else {
        i
    }
}

/// The end of a number that starts with a digit at `p`: a run of digits,
/// then a dot and a second run only when a digit follows the dot.
pub open spec fn number_end(s: Seq<char>, p: int) -> int {
    let d = digits_end(s, p);
    if char_at(s, d) == '.' && is_digit(char_at(s, d + 1)) {
        digits_end(s, d + 1)
    } else {
        d
    }
}

/// The kind of a token made of the single character `c` alone.
pub open spec fn single_kind(c: char) -> Option<TokenType> {
    if c == '(' {
        Some(TokenType::LEFT_PAREN)
    } else if c == ')' {
        Some(TokenType::RIGHT_PAREN)
    } else if c == '{' {
        Some(TokenType::LEFT_BRACE)
    } else if c == '}' {
        Some(TokenType::RIGHT_BRACE)
    } else if c == ',' {
        Some(TokenType::COMMA)
    } else if c == '.' {
        Some(TokenType::DOT)
    } else if c == '-' {
        Some(TokenType::MINUS)
    } else if c == '+' {
        Some(TokenType::PLUS)
    } else if c == ';' {
        Some(TokenType::SEMICOLON)
    } else if c == '*' {
        Some(TokenType::STAR)
    } else {
        None
    }
}

/// For an operator character that may take a following `=`: the kind with
/// the `=` and the kind without it.
pub open spec fn operator_kinds(c: char) -> Option<(TokenType, TokenType)> {
    if c == '!' {
        Some((TokenType::BANG_EQUAL, TokenType::BANG))
    } else if c == '=' {
        Some((TokenType::EQUAL_EQUAL, TokenType::EQUAL))
    } else if c == '<' {
        Some((TokenType::LESS_EQUAL, TokenType::LESS))
    } else if c == '>' {
        Some((TokenType::GREATER_EQUAL, TokenType::GREATER))
    } else {
        None
    }
}

/// The outcome of one scan step: the scan goes on at the position it holds,
/// with or without a token, or stops with an error.
pub enum Step {
    Skip(int),
    Emit(int, TokenSpec),
    Fail(ScanError),
}

/// The token of kind `kind` made of `s[p..e]`, on the line where it starts.
pub open spec fn token_at(
    s: Seq<char>,
    p: int,
    e: int,
    kind: TokenType,
    literal: Option<LiteralSpec>,
) -> TokenSpec {
    TokenSpec { kind, lexeme: s.subrange(p, e), line: line_at(s, p), literal }
}

/// One scan step at position `p` (with `p < s.len()`).
pub open spec fn step(s: Seq<char>, p: int) -> Step {
    let c = s[p];
    if single_kind(c) is Some {
        Step::Emit(p + 1, token_at(s, p, p + 1, single_kind(c)->0, None))
    } else if operator_kinds(c) is Some {
        let (long, short) = operator_kinds(c)->0;
        if char_at(s, p + 1) == '=' {
            Step::Emit(p + 2, token_at(s, p, p + 2, long, None))
        } else {
            Step::Emit(p + 1, token_at(s, p, p + 1, short, None))
        }
    } else if c == '/' {
        if char_at(s, p + 1) == '/' {
            Step::Skip(line_end(s, p + 2))
        } else if char_at(s, p + 1) == '*' {
            let e = comment_end(s, p + 2);
            if e >= s.len() {
                Step::Fail(ScanError::UnclosedComment { line: line_at(s, s.len() as int) as usize })
            } else {
                Step::Skip(e + 2)
            }
        } else {
            Step::Emit(p + 1, token_at(s, p, p + 1, TokenType::SLASH, None))
        }
    } else if c == ' ' || c == '\r' || c == '\t' || c == '\n' {
        Step::Skip(p + 1)
    } else if c == '"' {
        let e = quote_end(s, p + 1);
        if e >= s.len() {
            Step::Fail(ScanError::UnterminatedString { line: line_at(s, s.len() as int) as usize })
        } else {
            Step::Emit(
                e + 1,
                token_at(s, p, e + 1, TokenType::STRING, Some(LiteralSpec::Str(s.subrange(p + 1, e)))),
            )
        }
    } else if is_digit(c) {
        let e = number_end(s, p);
        Step::Emit(e, token_at(s, p, e, TokenType::NUMBER, Some(LiteralSpec::Number(s.subrange(p, e)))))
    } else if alphabetic(c) {
        let e = alpha_end(s, p + 1);
        let kind = match keyword_of(s.subrange(p, e)) {
            Some(k) => k,
            None => TokenType::IDENTIFIER,
        };
        Step::Emit(e, token_at(s, p, e, kind, None))
    } else {
        Step::Fail(ScanError::UnexpectedCharacter { line: line_at(s, p) as usize, character: c })
    }
}

/// The position at which the scan goes on after a step, if it goes on.
pub open spec fn step_next(st: Step) -> int {
    match st {
        Step::Skip(n) => n,
        Step::Emit(n, _) => n,
        Step::Fail(_) => 0,
    }
}

/// The tokens `t` put in front of a scan outcome.
pub open spec fn prepend(
    t: Seq<TokenSpec>,
    r: Result<Seq<TokenSpec>, ScanError>,
) -> Result<Seq<TokenSpec>, ScanError> {
    match r {
        Ok(x) => Ok(t + x),
        Err(e) => Err(e),
    }
}

/// The terminal token of a scan of `s`.
pub open spec fn eof_token(s: Seq<char>) -> TokenSpec {
    TokenSpec {
        kind: TokenType::EOF,
        lexeme: Seq::empty(),
        line: line_at(s, s.len() as int),
        literal: None,
    }
}

/// The outcome of scanning `s` from position `p` to its end.
pub open spec fn scan_from(s: Seq<char>, p: int) -> Result<Seq<TokenSpec>, ScanError>
    decreases s.len() - p,
    via scan_from_decreases
{
    if p < 0 || p >= s.len() {
        Ok(seq![eof_token(s)])
    } else {
        match step(s, p) {
            Step::Skip(n) => scan_from(s, n),
            Step::Emit(n, t) => prepend(seq![t], scan_from(s, n)),
            Step::Fail(e) => Err(e),
        }
    }
}

#[via_fn]
proof fn scan_from_decreases(s: Seq<char>, p: int) {
    if 0 <= p < s.len() {
        lemma_step_bounds(s, p);
    }
}

/// The outcome of scanning all of `s`: its tokens, ending with `EOF`, or the
/// first error.
pub open spec fn scan(s: Seq<char>) -> Result<Seq<TokenSpec>, ScanError> {
    scan_from(s, 0)
}

pub proof fn lemma_digits_end(s: Seq<char>, i: int)
    requires
        0 <= i <= s.len(),
    ensures
        i <= digits_end(s, i) <= s.len(),
    decreases s.len() - i,
{
    if i < s.len() && is_digit(s[i]) {
        lemma_digits_end(s, i + 1);
    }
}

pub proof fn lemma_alpha_end(s: Seq<char>, i: int)
    requires
        0 <= i <= s.len(),
    ensures
        i <= alpha_end(s, i) <= s.len(),
    decreases s.len() - i,
{
    if i < s.len() && alphabetic(s[i]) {
        lemma_alpha_end(s, i + 1);
    }
}

pub proof fn lemma_line_end(s: Seq<char>, i: int)
    requires
        0 <= i <= s.len(),
    ensures
        i <= line_end(s, i) <= s.len(),
    decreases s.len() - i,
{
    if i < s.len() && s[i] != '\n' {
        lemma_line_end(s, i + 1);
    }
}

pub proof fn lemma_quote_end(s: Seq<char>, i: int)
    requires
        0 <= i <= s.len(),
    ensures
        i <= quote_end(s, i) <= s.len(),
    decreases s.len() - i,
{
    if i < s.len() && s[i] != '"' {
        lemma_quote_end(s, i + 1);
    }
}

pub proof fn lemma_comment_end(s: Seq<char>, i: int)
    requires
        0 <= i <= s.len(),
    ensures
        i <= comment_end(s, i) <= s.len(),
        comment_end(s, i) < s.len() ==> comment_end(s, i) + 2 <= s.len(),
    decreases s.len() - i,
{
    if i < s.len() && !(s[i] == '*' && char_at(s, i + 1) == '/') {
        lemma_comment_end(s, i + 1);
    }
}

pub proof fn lemma_number_end(s: Seq<char>, p: int)
    requires
        0 <= p < s.len(),
        is_digit(s[p]),
    ensures
        p < number_end(s, p) <= s.len(),
{
    lemma_digits_end(s, p);
    lemma_digits_end(s, p + 1);
    let d = digits_end(s, p);
    if char_at(s, d) == '.' && is_digit(char_at(s, d + 1)) {
        lemma_digits_end(s, d + 1);
    }
}

/// A step that goes on moves forward and stays within `s`.
pub proof fn lemma_step_bounds(s: Seq<char>, p: int)
    requires
        0 <= p < s.len(),
    ensures
        !(step(s, p) is Fail) ==> p < step_next(step(s, p)) <= s.len(),
{
    let c = s[p];
    if c == '/' && char_at(s, p + 1) == '/' {
        lemma_line_end(s, p + 2);
    } else if c == '/' && char_at(s, p + 1) == '*' {
        lemma_comment_end(s, p + 2);
    } else if c == '"' {
        lemma_quote_end(s, p + 1);
    } else if is_digit(c) {
        lemma_number_end(s, p);
    } else if alphabetic(c) {
        lemma_alpha_end(s, p + 1);
    }
}

} // verus!
