use vstd::prelude::*;

verus! {

/// The category of a token.
#[allow(non_camel_case_types)]
#[derive(Clone, Copy, Debug, PartialEq, Eq, Structural)]
pub enum TokenType {
    // Single-character tokens.
    LEFT_PAREN,
    RIGHT_PAREN,
    LEFT_BRACE,
    RIGHT_BRACE,
    COMMA,
    DOT,
    MINUS,
    PLUS,
    SEMICOLON,
    SLASH,
    STAR,
    // One or two character tokens.
    BANG,
    BANG_EQUAL,
    EQUAL,
    EQUAL_EQUAL,
    GREATER,
    GREATER_EQUAL,
    LESS,
    LESS_EQUAL,
    // Literals.
    IDENTIFIER,
    STRING,
    NUMBER,
    // Keywords.
    AND,
    CLASS,
    ELSE,
    FALSE,
    FUN,
    FOR,
    IF,
    NIL,
    OR,
    PRINT,
    RETURN,
    SUPER,
    THIS,
    TRUE,
    VAR,
    WHILE,
    EOF,
}

/// The decoded value carried by a literal token.
///
/// A string carries the text between its quotes, with no escape processing.
/// A number carries its source text (digits, optionally a dot and more
/// digits), which always reads as a decimal floating-point value.
#[derive(Debug)]
pub enum Literal {
    Str(String),
    Number(String),
}

/// The mathematical value of a `Literal`.
pub enum LiteralSpec {
    Str(Seq<char>),
    Number(Seq<char>),
}

impl View for Literal {
    type V = LiteralSpec;

    open spec fn view(&self) -> LiteralSpec {
        match self {
            Literal::Str(s) => LiteralSpec::Str(s@),
            Literal::Number(s) => LiteralSpec::Number(s@),
        }
    }
}

/// A classified piece of source text: its kind, the exact text consumed,
/// the 1-based line on which it starts, and a decoded value for literals.
#[derive(Debug)]
pub struct Token {
    pub token_type: TokenType,
    pub lexeme: String,
    pub line: usize,
    pub literal: Option<Literal>,
}

/// The mathematical value of a `Token`.
pub struct TokenSpec {
    pub kind: TokenType,
    pub lexeme: Seq<char>,
    pub line: nat,
    pub literal: Option<LiteralSpec>,
}

pub open spec fn literal_view(l: Option<Literal>) -> Option<LiteralSpec> {
    match l {
        Some(v) => Some(v@),
        None => None,
    }
}

impl View for Token {
    type V = TokenSpec;

    open spec fn view(&self) -> TokenSpec {
        TokenSpec {
            kind: self.token_type,
            lexeme: self.lexeme@,
            line: self.line as nat,
            literal: literal_view(self.literal),
        }
    }
}

/// The values of a sequence of tokens.
pub open spec fn tokens_view(v: Seq<Token>) -> Seq<TokenSpec> {
    v.map_values(|t: Token| t@)
}

impl Literal {
    pub fn duplicate(&self) -> (r: Literal)
        ensures
            r@ == self@,
    {
        match self {
            Literal::Str(s) => Literal::Str(s.clone()),
            Literal::Number(s) => Literal::Number(s.clone()),
        }
    }
}

impl Token {
    /// A copy of this token with the same value.
    pub fn duplicate(&self) -> (r: Token)
        ensures
            r@ == self@,
    {
        let literal = match &self.literal {
            Some(l) => Some(l.duplicate()),
            None => None,
        };
        Token { token_type: self.token_type, lexeme: self.lexeme.clone(), line: self.line, literal }
    }
}

/// The keyword spelled by `t`, if any.
pub open spec fn keyword_of(t: Seq<char>) -> Option<TokenType> {
    if t == "and"@ {
        Some(TokenType::AND)
    } else if t == "class"@ {
        Some(TokenType::CLASS)
    } else if t == "else"@ {
        Some(TokenType::ELSE)
    } else if t == "false"@ {
        Some(TokenType::FALSE)
    } else if t == "for"@ {
        Some(TokenType::FOR)
    } else if t == "fun"@ {
        Some(TokenType::FUN)
    } else if t == "if"@ {
        Some(TokenType::IF)
    } else if t == "nil"@ {
        Some(TokenType::NIL)
    } else if t == "or"@ {
        Some(TokenType::OR)
    } else if t == "print"@ {
        Some(TokenType::PRINT)
    } else if t == "return"@ {
        Some(TokenType::RETURN)
    } else if t == "super"@ {
        Some(TokenType::SUPER)
    } else if t == "this"@ {
        Some(TokenType::THIS)
    } else if t == "true"@ {
        Some(TokenType::TRUE)
    } else if t == "var"@ {
        Some(TokenType::VAR)
    } else if t == "while"@ {
        Some(TokenType::WHILE)
    } else {
        None
    }
}

/// Whether two strings hold the same characters.
fn same_text(a: &str, b: &str) -> (r: bool)
    ensures
        r == (a@ == b@),
{
    let n = a.unicode_len();
    if n != b.unicode_len() {
        return false;
    }
    let mut i: usize = 0;
    while i < n
        invariant
            n == a@.len(),
            n == b@.len(),
            i <= n,
            forall|j: int| 0 <= j < i ==> a@[j] == b@[j],
        decreases n - i,
    {
        if a.get_char(i) != b.get_char(i) {
            return false;
        }
        i += 1;
    }
    assert(a@ =~= b@);
    true
}

/// The keyword that `text` spells, or `None` for any other word.
pub fn keyword(text: &str) -> (r: Option<TokenType>)
    ensures
        r == keyword_of(text@),
{
    if same_text(text, "and") {
        Some(TokenType::AND)
    } else if same_text(text, "class") {
        Some(TokenType::CLASS)
    } else if same_text(text, "else") {
        Some(TokenType::ELSE)
    } else if same_text(text, "false") {
        Some(TokenType::FALSE)
    } else if same_text(text, "for") {
        Some(TokenType::FOR)
    } else if same_text(text, "fun") {
        Some(TokenType::FUN)
    } else if same_text(text, "if") {
        Some(TokenType::IF)
    } else if same_text(text, "nil") {
        Some(TokenType::NIL)
    } else if same_text(text, "or") {
        Some(TokenType::OR)
    } else if same_text(text, "print") {
        Some(TokenType::PRINT)
    } else if same_text(text, "return") {
        Some(TokenType::RETURN)
    } else if same_text(text, "super") {
        Some(TokenType::SUPER)
    } else if same_text(text, "this") {
        Some(TokenType::THIS)
    } else if same_text(text, "true") {
        Some(TokenType::TRUE)
    } else if same_text(text, "var") {
        Some(TokenType::VAR)
    } else if same_text(text, "while") {
        Some(TokenType::WHILE)
    } else {
        None
    }
}

} // verus!
