use vstd::prelude::*;

use crate::grammar::{
    alpha_end, char_at, comment_end, digits_end, eof_token, is_alphabetic, is_digit,
    lemma_step_bounds, line_at, line_end, newlines, number_end, prepend, quote_end, scan,
    scan_from, step, token_at, ScanError, Step,
};
use crate::token::{
    keyword, keyword_of, literal_view, tokens_view, Literal, LiteralSpec, Token, TokenSpec,
    TokenType,
};

verus! {

/// The value of what `scan_tokens` returns.
pub open spec fn outcome(r: Result<Vec<Token>, ScanError>) -> Result<Seq<TokenSpec>, ScanError> {
    match r {
        Ok(v) => Ok(tokens_view(v@)),
        Err(e) => Err(e),
    }
}

proof fn lemma_newlines_bound(t: Seq<char>)
    ensures
        newlines(t) <= t.len(),
    decreases t.len(),
{
    if t.len() > 0 {
        lemma_newlines_bound(t.drop_last());
    }
}

/// Moving past position `p` moves one line down exactly when `s[p]` is a newline.
proof fn lemma_line_step(s: Seq<char>, p: int)
    requires
        0 <= p < s.len(),
    ensures
        line_at(s, p + 1) == line_at(s, p) + if s[p] == '\n' {
            1nat
        } else {
            0nat
        },
        line_at(s, p + 1) <= p + 2,
{
    assert(s.subrange(0, p + 1).drop_last() =~= s.subrange(0, p));
    lemma_newlines_bound(s.subrange(0, p + 1));
}

proof fn lemma_view_push(v: Seq<Token>, t: Token)
    ensures
        tokens_view(v.push(t)) == tokens_view(v).push(t@),
{
    assert(tokens_view(v.push(t)) =~= tokens_view(v).push(t@));
}

proof fn lemma_prepend_push(t: Seq<TokenSpec>, x: TokenSpec, r: Result<Seq<TokenSpec>, ScanError>)
    ensures
        prepend(t.push(x), r) == prepend(t, prepend(seq![x], r)),
{
    if let Ok(v) = r {
        assert(t.push(x) + v =~= t + (seq![x] + v));
    }
}

/// A scanner over one unit of source text.
pub struct Scanner {
    source: String,
    chars: Vec<char>,
    tokens: Vec<Token>,
    start: usize,
    current: usize,
    start_line: usize,
    line: usize,
}

impl Scanner {
    /// The characters being scanned.
    pub closed spec fn text(&self) -> Seq<char> {
        self.chars@
    }

    /// The position of the next unread character.
    pub closed spec fn position(&self) -> nat {
        self.current as nat
    }

    /// The scanner's state is consistent: the tokens built so far, followed by
    /// the scan of what is left, make the scan of the whole text.
    pub closed spec fn wf(&self) -> bool {
        &&& self.source@ == self.chars@
        &&& self.chars@.len() < usize::MAX
        &&& self.current <= self.chars@.len()
        &&& self.line == line_at(self.chars@, self.current as int)
        &&& prepend(tokens_view(self.tokens@), scan_from(self.chars@, self.current as int)) == scan(
            self.chars@,
        )
    }

    /// In the middle of a token that starts at `start`.
    closed spec fn mid(&self) -> bool {
        &&& self.source@ == self.chars@
        &&& self.chars@.len() < usize::MAX
        &&& self.start < self.current <= self.chars@.len()
        &&& self.start_line == line_at(self.chars@, self.start as int)
        &&& self.line == line_at(self.chars@, self.current as int)
    }

    /// The input and the token under way are those of `prev`.
    closed spec fn same_input(&self, prev: &Scanner) -> bool {
        &&& self.source == prev.source
        &&& self.chars == prev.chars
        &&& self.start == prev.start
        &&& self.start_line == prev.start_line
    }

    /// The token of kind `kind` made of the text from `start` to `current`.
    closed spec fn pending(&self, kind: TokenType, literal: Option<LiteralSpec>) -> TokenSpec {
        token_at(self.chars@, self.start as int, self.current as int, kind, literal)
    }

    /// A scanner at the start of `source`, on line 1, with no tokens yet.
    pub fn new(source: String) -> (r: Scanner)
        requires
            source@.len() < usize::MAX,
        ensures
            r.wf(),
            r.text() == source@,
            r.position() == 0,
    {
        let n = source.as_str().unicode_len();
        let mut chars: Vec<char> = Vec::new();
        let mut i: usize = 0;
        while i < n
            invariant
                n == source@.len(),
                i <= n,
                chars@ == source@.subrange(0, i as int),
            decreases n - i,
        {
            chars.push(source.as_str().get_char(i));
            i += 1;
            assert(chars@ =~= source@.subrange(0, i as int));
        }
        assert(chars@ =~= source@);
        let r = Scanner { source, chars, tokens: Vec::new(), start: 0, current: 0, start_line: 1, line: 1 };
        proof {
            assert(r.chars@.subrange(0, 0) =~= Seq::<char>::empty());
            assert(tokens_view(r.tokens@) =~= Seq::<TokenSpec>::empty());
            if let Ok(v) = scan(r.chars@) {
                assert(Seq::<TokenSpec>::empty() + v =~= v);
            }
        }
        r
    }

    /// Whether every character has been read.
    pub fn is_at_end(&self) -> (r: bool)
        ensures
            r == (self.position() >= self.text().len()),
    {
        self.current >= self.chars.len()
    }

    fn peek(&self) -> (r: char)
        ensures
            r == char_at(self.chars@, self.current as int),
    {
        if self.current >= self.chars.len() {
            '\0'
        } else {
            self.chars[self.current]
        }
    }

    fn peek_next(&self) -> (r: char)
        requires
            self.current < usize::MAX,
        ensures
            r == char_at(self.chars@, self.current + 1),
    {
        if self.current + 1 >= self.chars.len() {
            '\0'
        } else {
            self.chars[self.current + 1]
        }
    }

    /// Moves past one character, counting the line it ends.
    fn advance(&mut self) -> (r: char)
        requires
            old(self).current < old(self).chars.len(),
            old(self).chars.len() < usize::MAX,
            old(self).line == line_at(old(self).chars@, old(self).current as int),
        ensures
            final(self).same_input(old(self)),
            final(self).current == old(self).current + 1,
            final(self).line == line_at(final(self).chars@, final(self).current as int),
            final(self).tokens == old(self).tokens,
            r == old(self).chars@[old(self).current as int],
    {
        proof {
            lemma_line_step(self.chars@, self.current as int);
        }
        let c = self.chars[self.current];
        self.current += 1;
        if c == '\n' {
            self.line += 1;
        }
        c
    }

    fn match_next(&mut self, expected: char) -> (r: bool)
        requires
            expected != '\n',
            old(self).current <= old(self).chars.len(),
            old(self).chars.len() < usize::MAX,
            old(self).line == line_at(old(self).chars@, old(self).current as int),
        ensures
            final(self).same_input(old(self)),
            r == (old(self).current < old(self).chars.len() && old(self).chars@[old(self).current as int]
                == expected),
            final(self).current == old(self).current + if r {
                1int
            } else {
                0int
            },
            final(self).line == line_at(final(self).chars@, final(self).current as int),
            final(self).tokens == old(self).tokens,
    {
        if self.is_at_end() {
            return false;
        }
        if self.chars[self.current] != expected {
            return false;
        }
        self.advance();
        true
    }

    fn add_token(&mut self, token_type: TokenType, literal: Option<Literal>)
        requires
            old(self).source@ == old(self).chars@,
            old(self).start <= old(self).current <= old(self).chars.len(),
            old(self).start_line == line_at(old(self).chars@, old(self).start as int),
        ensures
            final(self).same_input(old(self)),
            final(self).current == old(self).current,
            final(self).line == old(self).line,
            tokens_view(final(self).tokens@) == tokens_view(old(self).tokens@).push(
                old(self).pending(token_type, literal_view(literal)),
            ),
    {
        let lexeme = self.source.as_str().substring_char(self.start, self.current).to_owned();
        let token = Token { token_type, lexeme, line: self.start_line, literal };
        proof {
            lemma_view_push(self.tokens@, token);
        }
        self.tokens.push(token);
    }

    fn add_token_if(&mut self, c: char, yes: TokenType, no: TokenType)
        requires
            c != '\0',
            c != '\n',
            old(self).mid(),
        ensures
            final(self).same_input(old(self)),
            final(self).line == line_at(final(self).chars@, final(self).current as int),
            char_at(old(self).chars@, old(self).current as int) == c ==> final(self).current
                == old(self).current + 1 && tokens_view(final(self).tokens@) == tokens_view(
                old(self).tokens@,
            ).push(final(self).pending(yes, None)),
            char_at(old(self).chars@, old(self).current as int) != c ==> final(self).current
                == old(self).current && tokens_view(final(self).tokens@) == tokens_view(
                old(self).tokens@,
            ).push(final(self).pending(no, None)),
    {
        if self.match_next(c) {
            self.add_token(yes, None)
        } else {
            self.add_token(no, None)
        }
    }

    fn number(&mut self)
        requires
            old(self).mid(),
            old(self).current == old(self).start + 1,
            is_digit(old(self).chars@[old(self).start as int]),
        ensures
            final(self).same_input(old(self)),
            final(self).current == number_end(old(self).chars@, old(self).start as int),
            final(self).line == line_at(final(self).chars@, final(self).current as int),
            tokens_view(final(self).tokens@) == tokens_view(old(self).tokens@).push(
                final(self).pending(
                    TokenType::NUMBER,
                    Some(LiteralSpec::Number(final(self).chars@.subrange(old(self).start as int, final(self).current as int))),
                ),
            ),
    {
        let ghost s = self.chars@;
        let ghost p = self.start as int;
        while self.current < self.chars.len() && is_digit_char(self.peek())
            invariant
                self.same_input(old(self)),
                p < self.current <= s.len(),
                s == self.chars@,
                s.len() < usize::MAX,
                self.line == line_at(s, self.current as int),
                self.tokens == old(self).tokens,
                digits_end(s, self.current as int) == digits_end(s, p),
            decreases s.len() - self.current,
        {
            self.advance();
        }
        if self.peek() == '.' && is_digit_char(self.peek_next()) {
            self.advance();
            while self.current < self.chars.len() && is_digit_char(self.peek())
                invariant
                    self.same_input(old(self)),
                    p < self.current <= s.len(),
                    s == self.chars@,
                    s.len() < usize::MAX,
                    self.line == line_at(s, self.current as int),
                    self.tokens == old(self).tokens,
                    digits_end(s, self.current as int) == number_end(s, p),
                decreases s.len() - self.current,
            {
                self.advance();
            }
        }
        let text = self.source.as_str().substring_char(self.start, self.current).to_owned();
        self.add_token(TokenType::NUMBER, Some(Literal::Number(text)));
    }

    fn identifier(&mut self)
        requires
            old(self).mid(),
            old(self).current == old(self).start + 1,
        ensures
            final(self).same_input(old(self)),
            final(self).current == alpha_end(old(self).chars@, old(self).start + 1),
            final(self).line == line_at(final(self).chars@, final(self).current as int),
            tokens_view(final(self).tokens@) == tokens_view(old(self).tokens@).push(
                final(self).pending(
                    match keyword_of(final(self).chars@.subrange(old(self).start as int, final(self).current as int)) {
                        Some(k) => k,
                        None => TokenType::IDENTIFIER,
                    },
                    None,
                ),
            ),
    {
        let ghost s = self.chars@;
        let ghost p = self.start as int;
        while self.current < self.chars.len() && is_alphabetic(self.peek())
            invariant
                self.same_input(old(self)),
                p < self.current <= s.len(),
                s == self.chars@,
                s.len() < usize::MAX,
                self.line == line_at(s, self.current as int),
                self.tokens == old(self).tokens,
                alpha_end(s, self.current as int) == alpha_end(s, p + 1),
            decreases s.len() - self.current,
        {
            self.advance();
        }
        let text = self.source.as_str().substring_char(self.start, self.current);
        match keyword(text) {
            Some(kind) => self.add_token(kind, None),
            None => self.add_token(TokenType::IDENTIFIER, None),
        }
    }

    fn string(&mut self) -> (r: Result<(), ScanError>)
        requires
            old(self).mid(),
            old(self).current == old(self).start + 1,
        ensures
            final(self).same_input(old(self)),
            ({
                let s = old(self).chars@;
                let e = quote_end(s, old(self).start + 1);
                if e >= s.len() {
                    &&& r == Err::<(), ScanError>(
                        ScanError::UnterminatedString { line: line_at(s, s.len() as int) as usize },
                    )
                    &&& final(self).tokens == old(self).tokens
                } else {
                    &&& r is Ok
                    &&& final(self).current == e + 1
                    &&& final(self).line == line_at(s, e + 1)
                    &&& tokens_view(final(self).tokens@) == tokens_view(old(self).tokens@).push(
                        final(self).pending(
                            TokenType::STRING,
                            Some(LiteralSpec::Str(s.subrange(old(self).start + 1, e))),
                        ),
                    )
                }
            }),
    {
        let ghost s = self.chars@;
        let ghost p = self.start as int;
        while self.peek() != '"' && !self.is_at_end()
            invariant
                self.same_input(old(self)),
                p < self.current <= s.len(),
                s == self.chars@,
                s.len() < usize::MAX,
                self.line == line_at(s, self.current as int),
                self.tokens == old(self).tokens,
                quote_end(s, self.current as int) == quote_end(s, p + 1),
            decreases s.len() - self.current,
        {
            self.advance();
        }
        if self.is_at_end() {
            return Err(ScanError::UnterminatedString { line: self.line });
        }
        self.advance();
        let value = self.source.as_str().substring_char(self.start + 1, self.current - 1).to_owned();
        self.add_token(TokenType::STRING, Some(Literal::Str(value)));
        Ok(())
    }

    fn c_style_comment(&mut self) -> (r: Result<(), ScanError>)
        requires
            old(self).mid(),
            old(self).current == old(self).start + 2,
        ensures
            final(self).same_input(old(self)),
            final(self).tokens == old(self).tokens,
            ({
                let s = old(self).chars@;
                let e = comment_end(s, old(self).start + 2);
                if e >= s.len() {
                    r == Err::<(), ScanError>(
                        ScanError::UnclosedComment { line: line_at(s, s.len() as int) as usize },
                    )
                } else {
                    &&& r is Ok
                    &&& final(self).current == e + 2
                    &&& final(self).line == line_at(s, e + 2)
                }
            }),
    {
        let ghost s = self.chars@;
        let ghost p = self.start as int;
        while !self.is_at_end() && !(self.peek() == '*' && self.peek_next() == '/')
            invariant
                self.same_input(old(self)),
                p < self.current <= s.len(),
                s == self.chars@,
                s.len() < usize::MAX,
                self.line == line_at(s, self.current as int),
                self.tokens == old(self).tokens,
                comment_end(s, self.current as int) == comment_end(s, p + 2),
            decreases s.len() - self.current,
        {
            self.advance();
        }
        if self.is_at_end() {
            return Err(ScanError::UnclosedComment { line: self.line });
        }
        self.advance();
        self.advance();
        Ok(())
    }

    /// Scans the token that starts at `start`, or skips what is no token.
    fn scan_token(&mut self) -> (r: Result<(), ScanError>)
        requires
            old(self).source@ == old(self).chars@,
            old(self).chars@.len() < usize::MAX,
            old(self).start == old(self).current,
            old(self).current < old(self).chars.len(),
            old(self).start_line == old(self).line,
            old(self).line == line_at(old(self).chars@, old(self).current as int),
        ensures
            final(self).same_input(old(self)),
            match step(old(self).chars@, old(self).start as int) {
                Step::Skip(n) => {
                    &&& r is Ok
                    &&& final(self).current == n
                    &&& final(self).line == line_at(old(self).chars@, n)
                    &&& final(self).tokens == old(self).tokens
                },
                Step::Emit(n, t) => {
                    &&& r is Ok
                    &&& final(self).current == n
                    &&& final(self).line == line_at(old(self).chars@, n)
                    &&& tokens_view(final(self).tokens@) == tokens_view(old(self).tokens@).push(t)
                },
                Step::Fail(e) => {
                    &&& r == Err::<(), ScanError>(e)
                    &&& final(self).tokens == old(self).tokens
                },
            },
    {
        let ghost s = self.chars@;
        let ghost p = self.start as int;
        let c = self.advance();
        match c {
            '(' => self.add_token(TokenType::LEFT_PAREN, None),
            ')' => self.add_token(TokenType::RIGHT_PAREN, None),
            '{' => self.add_token(TokenType::LEFT_BRACE, None),
            '}' => self.add_token(TokenType::RIGHT_BRACE, None),
            ',' => self.add_token(TokenType::COMMA, None),
            '.' => self.add_token(TokenType::DOT, None),
            '-' => self.add_token(TokenType::MINUS, None),
            '+' => self.add_token(TokenType::PLUS, None),
            ';' => self.add_token(TokenType::SEMICOLON, None),
            '*' => self.add_token(TokenType::STAR, None),
            '!' => self.add_token_if('=', TokenType::BANG_EQUAL, TokenType::BANG),
            '=' => self.add_token_if('=', TokenType::EQUAL_EQUAL, TokenType::EQUAL),
            '<' => self.add_token_if('=', TokenType::LESS_EQUAL, TokenType::LESS),
            '>' => self.add_token_if('=', TokenType::GREATER_EQUAL, TokenType::GREATER),
            '/' => {
                if self.match_next('/') {
                    while self.peek() != '\n' && !self.is_at_end()
                        invariant
                            self.same_input(old(self)),
                            p + 2 <= self.current <= s.len(),
                            s == self.chars@,
                            s.len() < usize::MAX,
                            self.line == line_at(s, self.current as int),
                            self.tokens == old(self).tokens,
                            line_end(s, self.current as int) == line_end(s, p + 2),
                        decreases s.len() - self.current,
                    {
                        self.advance();
                    }
                } else if self.match_next('*') {
                    return self.c_style_comment();
                } else {
                    self.add_token(TokenType::SLASH, None)
                }
            },
            ' ' | '\r' | '\t' | '\n' => {},
            '"' => return self.string(),
            _ => {
                if is_digit_char(c) {
                    self.number()
                } else if is_alphabetic(c) {
                    self.identifier()
                } else {
                    return Err(ScanError::UnexpectedCharacter { line: self.start_line, character: c });
                }
            },
        }
        Ok(())
    }

    /// Scans the whole text: its tokens, ending with `EOF`, or the first error.
    /// A scan that fails leaves the scanner where the failing token starts.
    pub fn scan_tokens(&mut self) -> (r: Result<Vec<Token>, ScanError>)
        requires
            old(self).wf(),
        ensures
            final(self).wf(),
            final(self).text() == old(self).text(),
            outcome(r) == scan(old(self).text()),
    {
        let ghost s = self.chars@;
        while !self.is_at_end()
            invariant
                self.wf(),
                self.chars@ == s,
                old(self).chars@ == s,
            decreases s.len() - self.current,
        {
            self.start = self.current;
            self.start_line = self.line;
            let ghost before = tokens_view(self.tokens@);
            let ghost p = self.current as int;
            proof {
                lemma_step_bounds(s, p);
            }
            match self.scan_token() {
                Ok(()) => {
                    proof {
                        if let Step::Emit(n, t) = step(s, p) {
                            lemma_prepend_push(before, t, scan_from(s, n));
                        }
                    }
                },
                Err(e) => {
                    self.current = self.start;
                    self.line = self.start_line;
                    return Err(e);
                },
            }
        }
        let mut out: Vec<Token> = Vec::new();
        let mut i: usize = 0;
        while i < self.tokens.len()
            invariant
                self.wf(),
                self.chars@ == s,
                old(self).chars@ == s,
                i <= self.tokens.len(),
                out.len() == i,
                forall|j: int| 0 <= j < i ==> #[trigger] out@[j]@ == self.tokens@[j]@,
            decreases self.tokens.len() - i,
        {
            out.push(self.tokens[i].duplicate());
            i += 1;
        }
        let eof = Token { token_type: TokenType::EOF, lexeme: String::new(), line: self.line, literal: None };
        proof {
            assert(tokens_view(out@) =~= tokens_view(self.tokens@));
            lemma_view_push(out@, eof);
            assert(eof@ == eof_token(s));
            assert(tokens_view(self.tokens@).push(eof@) =~= tokens_view(self.tokens@) + seq![eof_token(s)]);
        }
        out.push(eof);
        Ok(out)
    }
}

/// Whether `c` is an ASCII decimal digit.
fn is_digit_char(c: char) -> (r: bool)
    ensures
        r == is_digit(c),
{
    '0' <= c && c <= '9'
}

} // verus!
