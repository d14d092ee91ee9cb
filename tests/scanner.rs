use lox_scanner::{keyword, Literal, ScanError, Scanner, Token, TokenType};

fn scan(text: &str) -> Result<Vec<Token>, ScanError> {
    let mut scanner = Scanner::new(text.to_string());
    scanner.scan_tokens()
}

fn kinds(tokens: &[Token]) -> Vec<TokenType> {
    tokens.iter().map(|t| t.token_type).collect()
}

fn number_value(token: &Token) -> f64 {
    match &token.literal {
        Some(Literal::Number(text)) => text.parse::<f64>().unwrap(),
        other => panic!("not a number literal: {:?}", other),
    }
}

#[test]
fn single_punctuation_gives_one_token() {
    let cases = [
        ('(', TokenType::LEFT_PAREN),
        (')', TokenType::RIGHT_PAREN),
        ('{', TokenType::LEFT_BRACE),
        ('}', TokenType::RIGHT_BRACE),
        (',', TokenType::COMMA),
        ('.', TokenType::DOT),
        ('-', TokenType::MINUS),
        ('+', TokenType::PLUS),
        (';', TokenType::SEMICOLON),
        ('/', TokenType::SLASH),
        ('*', TokenType::STAR),
    ];
    for (c, kind) in cases {
        let tokens = scan(&c.to_string()).unwrap();
        assert_eq!(kinds(&tokens), vec![kind, TokenType::EOF]);
        assert_eq!(tokens[0].lexeme, c.to_string());
        assert_eq!(tokens[0].line, 1);
        assert!(tokens[0].literal.is_none());
        assert_eq!(tokens[1].lexeme, "");
        assert_eq!(tokens[1].line, 1);
    }
}

#[test]
fn bang_equal_is_one_token() {
    let tokens = scan("!=").unwrap();
    assert_eq!(kinds(&tokens), vec![TokenType::BANG_EQUAL, TokenType::EOF]);
    assert_eq!(tokens[0].lexeme, "!=");
}

#[test]
fn bang_alone() {
    let tokens = scan("!").unwrap();
    assert_eq!(kinds(&tokens), vec![TokenType::BANG, TokenType::EOF]);
    assert_eq!(tokens[0].lexeme, "!");
}

#[test]
fn one_and_two_character_operators() {
    let tokens = scan("= == < <= > >= ! !=").unwrap();
    assert_eq!(
        kinds(&tokens),
        vec![
            TokenType::EQUAL,
            TokenType::EQUAL_EQUAL,
            TokenType::LESS,
            TokenType::LESS_EQUAL,
            TokenType::GREATER,
            TokenType::GREATER_EQUAL,
            TokenType::BANG,
            TokenType::BANG_EQUAL,
            TokenType::EOF,
        ]
    );
    assert_eq!(tokens[5].lexeme, ">=");
}

#[test]
fn equal_equal_equal() {
    let tokens = scan("===").unwrap();
    assert_eq!(kinds(&tokens), vec![TokenType::EQUAL_EQUAL, TokenType::EQUAL, TokenType::EOF]);
}

#[test]
fn newlines_before_token_set_its_line() {
    for n in 0..5usize {
        let text = format!("{}+", "\n".repeat(n));
        let tokens = scan(&text).unwrap();
        assert_eq!(kinds(&tokens), vec![TokenType::PLUS, TokenType::EOF]);
        assert_eq!(tokens[0].line, n + 1);
        assert_eq!(tokens[1].line, n + 1);
    }
}

#[test]
fn lines_across_several_tokens() {
    let tokens = scan("a\nb\n\nc").unwrap();
    let lines: Vec<usize> = tokens.iter().map(|t| t.line).collect();
    assert_eq!(lines, vec![1, 2, 4, 4]);
}

#[test]
fn string_literal_strips_quotes() {
    let tokens = scan("\"hello\"").unwrap();
    assert_eq!(kinds(&tokens), vec![TokenType::STRING, TokenType::EOF]);
    assert_eq!(tokens[0].lexeme, "\"hello\"");
    match &tokens[0].literal {
        Some(Literal::Str(s)) => assert_eq!(s, "hello"),
        other => panic!("unexpected literal {:?}", other),
    }
}

#[test]
fn string_after_other_tokens() {
    let tokens = scan("x = \"ab\";").unwrap();
    assert_eq!(
        kinds(&tokens),
        vec![TokenType::IDENTIFIER, TokenType::EQUAL, TokenType::STRING, TokenType::SEMICOLON, TokenType::EOF]
    );
    match &tokens[2].literal {
        Some(Literal::Str(s)) => assert_eq!(s, "ab"),
        other => panic!("unexpected literal {:?}", other),
    }
}

#[test]
fn string_keeps_backslashes() {
    let tokens = scan("\"a\\nb\"").unwrap();
    match &tokens[0].literal {
        Some(Literal::Str(s)) => assert_eq!(s, "a\\nb"),
        other => panic!("unexpected literal {:?}", other),
    }
}

#[test]
fn multi_line_string_starts_on_its_first_line() {
    let tokens = scan("\"a\nb\" c").unwrap();
    assert_eq!(kinds(&tokens), vec![TokenType::STRING, TokenType::IDENTIFIER, TokenType::EOF]);
    assert_eq!(tokens[0].line, 1);
    assert_eq!(tokens[1].line, 2);
    assert_eq!(tokens[2].line, 2);
    match &tokens[0].literal {
        Some(Literal::Str(s)) => assert_eq!(s, "a\nb"),
        other => panic!("unexpected literal {:?}", other),
    }
}

#[test]
fn unterminated_string_is_an_error() {
    assert_eq!(scan("\"abc").err(), Some(ScanError::UnterminatedString { line: 1 }));
}

#[test]
fn unterminated_string_reports_the_last_line() {
    assert_eq!(scan("+ \"a\nb\n").err(), Some(ScanError::UnterminatedString { line: 3 }));
}

#[test]
fn number_with_fraction() {
    let tokens = scan("123.45").unwrap();
    assert_eq!(kinds(&tokens), vec![TokenType::NUMBER, TokenType::EOF]);
    assert_eq!(tokens[0].lexeme, "123.45");
    assert_eq!(number_value(&tokens[0]), 123.45);
}

#[test]
fn number_with_trailing_dot() {
    let tokens = scan("123.").unwrap();
    assert_eq!(kinds(&tokens), vec![TokenType::NUMBER, TokenType::DOT, TokenType::EOF]);
    assert_eq!(tokens[0].lexeme, "123");
    assert_eq!(number_value(&tokens[0]), 123.0);
    assert_eq!(tokens[1].lexeme, ".");
}

#[test]
fn number_then_dot_then_word() {
    let tokens = scan("1.x").unwrap();
    assert_eq!(kinds(&tokens), vec![TokenType::NUMBER, TokenType::DOT, TokenType::IDENTIFIER, TokenType::EOF]);
    assert_eq!(number_value(&tokens[0]), 1.0);
}

#[test]
fn leading_dot_is_not_a_number() {
    let tokens = scan(".5").unwrap();
    assert_eq!(kinds(&tokens), vec![TokenType::DOT, TokenType::NUMBER, TokenType::EOF]);
    assert_eq!(number_value(&tokens[1]), 5.0);
}

#[test]
fn keyword_for() {
    let tokens = scan("for").unwrap();
    assert_eq!(kinds(&tokens), vec![TokenType::FOR, TokenType::EOF]);
    assert!(tokens[0].literal.is_none());
}

#[test]
fn identifier_forest() {
    let tokens = scan("forest").unwrap();
    assert_eq!(kinds(&tokens), vec![TokenType::IDENTIFIER, TokenType::EOF]);
    assert_eq!(tokens[0].lexeme, "forest");
}

#[test]
fn every_keyword() {
    let words = [
        ("and", TokenType::AND),
        ("class", TokenType::CLASS),
        ("else", TokenType::ELSE),
        ("false", TokenType::FALSE),
        ("for", TokenType::FOR),
        ("fun", TokenType::FUN),
        ("if", TokenType::IF),
        ("nil", TokenType::NIL),
        ("or", TokenType::OR),
        ("print", TokenType::PRINT),
        ("return", TokenType::RETURN),
        ("super", TokenType::SUPER),
        ("this", TokenType::THIS),
        ("true", TokenType::TRUE),
        ("var", TokenType::VAR),
        ("while", TokenType::WHILE),
    ];
    for (word, kind) in words {
        assert_eq!(keyword(word), Some(kind));
        let tokens = scan(word).unwrap();
        assert_eq!(kinds(&tokens), vec![kind, TokenType::EOF]);
    }
    assert_eq!(keyword("For"), None);
    assert_eq!(keyword("fo"), None);
    assert_eq!(keyword(""), None);
}

#[test]
fn identifiers_stop_at_digits() {
    let tokens = scan("foo123").unwrap();
    assert_eq!(kinds(&tokens), vec![TokenType::IDENTIFIER, TokenType::NUMBER, TokenType::EOF]);
    assert_eq!(tokens[0].lexeme, "foo");
    assert_eq!(tokens[1].lexeme, "123");
}

#[test]
fn non_ascii_letters_make_identifiers() {
    let tokens = scan("größe = 1").unwrap();
    assert_eq!(kinds(&tokens), vec![TokenType::IDENTIFIER, TokenType::EQUAL, TokenType::NUMBER, TokenType::EOF]);
    assert_eq!(tokens[0].lexeme, "größe");
}

#[test]
fn line_comment_is_skipped() {
    let tokens = scan("// comment\n1").unwrap();
    assert_eq!(kinds(&tokens), vec![TokenType::NUMBER, TokenType::EOF]);
    assert_eq!(tokens[0].lexeme, "1");
    assert_eq!(tokens[0].line, 2);
}

#[test]
fn line_comment_at_end() {
    let tokens = scan("+ // done").unwrap();
    assert_eq!(kinds(&tokens), vec![TokenType::PLUS, TokenType::EOF]);
}

#[test]
fn block_comment_spans_lines() {
    let tokens = scan("/* a\nb */2").unwrap();
    assert_eq!(kinds(&tokens), vec![TokenType::NUMBER, TokenType::EOF]);
    assert_eq!(tokens[0].lexeme, "2");
    assert_eq!(tokens[0].line, 2);
}

#[test]
fn block_comment_does_not_nest() {
    let tokens = scan("/* /* */ */").unwrap();
    assert_eq!(kinds(&tokens), vec![TokenType::STAR, TokenType::SLASH, TokenType::EOF]);
}

#[test]
fn unclosed_block_comment_is_an_error() {
    assert_eq!(scan("/* a\n").err(), Some(ScanError::UnclosedComment { line: 2 }));
    assert_eq!(scan("/*/").err(), Some(ScanError::UnclosedComment { line: 1 }));
    assert_eq!(scan("/* *").err(), Some(ScanError::UnclosedComment { line: 1 }));
}

#[test]
fn unexpected_character_is_an_error() {
    assert_eq!(
        scan("a\n@").err(),
        Some(ScanError::UnexpectedCharacter { line: 2, character: '@' })
    );
}

#[test]
fn scan_stops_at_the_first_error() {
    assert_eq!(
        scan("# \"open").err(),
        Some(ScanError::UnexpectedCharacter { line: 1, character: '#' })
    );
}

#[test]
fn error_accessors() {
    let e = ScanError::UnexpectedCharacter { line: 4, character: '#' };
    assert_eq!(e.line(), 4);
    assert_eq!(e.message(), "Unexpected character.");
    assert_eq!(ScanError::UnterminatedString { line: 2 }.message(), "Unterminated string.");
    assert_eq!(ScanError::UnclosedComment { line: 7 }.line(), 7);
    assert_eq!(ScanError::UnclosedComment { line: 7 }.message(), "Unclosed C style comment.");
}

#[test]
fn empty_input_gives_eof_on_line_one() {
    let tokens = scan("").unwrap();
    assert_eq!(kinds(&tokens), vec![TokenType::EOF]);
    assert_eq!(tokens[0].lexeme, "");
    assert_eq!(tokens[0].line, 1);
}

#[test]
fn whitespace_only_input() {
    let tokens = scan(" \t\r\n ").unwrap();
    assert_eq!(kinds(&tokens), vec![TokenType::EOF]);
    assert_eq!(tokens[0].line, 2);
}

#[test]
fn scanning_twice_gives_the_same_tokens() {
    let mut scanner = Scanner::new("var x = 1;".to_string());
    let first = scanner.scan_tokens().unwrap();
    assert!(scanner.is_at_end());
    let second = scanner.scan_tokens().unwrap();
    assert_eq!(kinds(&first), kinds(&second));
    assert_eq!(kinds(&first).iter().filter(|k| **k == TokenType::EOF).count(), 1);
    assert_eq!(second.len(), 6);
}

#[test]
fn new_scanner_is_at_start() {
    assert!(!Scanner::new("1".to_string()).is_at_end());
    assert!(Scanner::new(String::new()).is_at_end());
}

#[test]
fn small_program() {
    let tokens = scan("fun add(a, b) {\n  return a + b;\n}").unwrap();
    assert_eq!(
        kinds(&tokens),
        vec![
            TokenType::FUN,
            TokenType::IDENTIFIER,
            TokenType::LEFT_PAREN,
            TokenType::IDENTIFIER,
            TokenType::COMMA,
            TokenType::IDENTIFIER,
            TokenType::RIGHT_PAREN,
            TokenType::LEFT_BRACE,
            TokenType::RETURN,
            TokenType::IDENTIFIER,
            TokenType::PLUS,
            TokenType::IDENTIFIER,
            TokenType::SEMICOLON,
            TokenType::RIGHT_BRACE,
            TokenType::EOF,
        ]
    );
    assert_eq!(tokens[8].line, 2);
    assert_eq!(tokens[13].line, 3);
}
