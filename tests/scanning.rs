use luxt::error::{CodeLocation, LuxtError};
use luxt::literal::Literal;
use luxt::scanner::Scanner;
use luxt::token::Token;
use luxt::token_type::TokenType;

fn scan(src: &str) -> Result<Vec<Token>, LuxtError> {
    let mut scanner = Scanner::new(src.as_bytes());
    scanner.scan_tokens().map(|tokens| tokens.clone())
}

fn kinds(src: &str) -> Vec<TokenType> {
    scan(src).unwrap().iter().map(|t| t.token_type().clone()).collect()
}

fn number_value(t: &TokenType) -> f64 {
    match t {
        TokenType::Number(numeral) => numeral.parse::<f64>().unwrap(),
        other => panic!("not a number: {:?}", other),
    }
}

#[test]
fn blank_input_gives_only_eof() {
    let tokens = scan("").unwrap();
    assert_eq!(tokens.len(), 1);
    assert_eq!(tokens[0].token_type(), &TokenType::Eof);
    assert_eq!(tokens[0].lexeme(), "");
    assert_eq!(tokens[0].line(), 1);
}

#[test]
fn whitespace_newlines_and_comments_give_one_eof() {
    let tokens = scan("  \t\r\n// a comment ( ) \"\n\n   // last").unwrap();
    assert_eq!(tokens.len(), 1);
    assert_eq!(tokens[0].token_type(), &TokenType::Eof);
    assert_eq!(tokens[0].line(), 4);
}

#[test]
fn each_operator_is_one_token_with_its_text() {
    let cases: Vec<(&str, TokenType)> = vec![
        ("(", TokenType::LeftParen),
        (")", TokenType::RightParen),
        ("{", TokenType::LeftBrace),
        ("}", TokenType::RightBrace),
        (",", TokenType::Comma),
        (".", TokenType::Dot),
        ("-", TokenType::Minus),
        ("+", TokenType::Plus),
        (";", TokenType::SemiColon),
        ("*", TokenType::Star),
        ("!", TokenType::Bang),
        ("!=", TokenType::BangEqual),
        ("=", TokenType::Equal),
        ("==", TokenType::EqualEqual),
        (">", TokenType::Greater),
        (">=", TokenType::GreaterEqual),
        ("<", TokenType::Less),
        ("<=", TokenType::LessEqual),
        ("/", TokenType::Slash),
    ];
    for (text, kind) in cases {
        let tokens = scan(text).unwrap();
        assert_eq!(tokens.len(), 2, "{}", text);
        assert_eq!(tokens[0].token_type(), &kind);
        assert_eq!(tokens[0].lexeme(), text);
        assert_eq!(tokens[0].line(), 1);
        assert_eq!(tokens[1].token_type(), &TokenType::Eof);
    }
}

#[test]
fn bang_equal_is_one_token() {
    assert_eq!(kinds("!="), vec![TokenType::BangEqual, TokenType::Eof]);
    assert_eq!(kinds("! ="), vec![TokenType::Bang, TokenType::Equal, TokenType::Eof]);
}

#[test]
fn variable_declaration() {
    let tokens = scan("var x = 12.5;").unwrap();
    let got: Vec<TokenType> = tokens.iter().map(|t| t.token_type().clone()).collect();
    assert_eq!(got.len(), 6);
    assert_eq!(got[0], TokenType::Var);
    assert_eq!(got[1], TokenType::Identifier("x".to_string()));
    assert_eq!(got[2], TokenType::Equal);
    assert_eq!(number_value(&got[3]), 12.5);
    assert_eq!(tokens[3].lexeme(), "12.5");
    assert_eq!(got[4], TokenType::SemiColon);
    assert_eq!(got[5], TokenType::Eof);
}

#[test]
fn unterminated_string_is_an_error() {
    let r = scan("\"hello");
    assert_eq!(
        r,
        Err(LuxtError::UnterminatedString { location: CodeLocation::new(0, 0) })
    );
}

#[test]
fn unterminated_string_reports_line_before_last_newline() {
    let r = scan("x\n\"ab\ncd");
    assert_eq!(
        r,
        Err(LuxtError::UnterminatedString { location: CodeLocation::new(2, 2) })
    );
}

#[test]
fn comment_then_number() {
    let tokens = scan("// comment only\n123").unwrap();
    assert_eq!(tokens.len(), 2);
    assert_eq!(number_value(tokens[0].token_type()), 123.0);
    assert_eq!(tokens[0].line(), 2);
    assert_eq!(tokens[1].token_type(), &TokenType::Eof);
    assert_eq!(tokens[1].line(), 2);
}

#[test]
fn trailing_dot_is_not_part_of_number() {
    let tokens = scan("12.").unwrap();
    assert_eq!(tokens.len(), 3);
    assert_eq!(number_value(tokens[0].token_type()), 12.0);
    assert_eq!(tokens[0].lexeme(), "12");
    assert_eq!(tokens[1].token_type(), &TokenType::Dot);
    assert_eq!(tokens[2].token_type(), &TokenType::Eof);
}

#[test]
fn keyword_prefix_is_an_identifier() {
    assert_eq!(
        kinds("forest"),
        vec![TokenType::Identifier("forest".to_string()), TokenType::Eof]
    );
}

#[test]
fn every_keyword_is_recognised() {
    let cases: Vec<(&str, TokenType)> = vec![
        ("and", TokenType::And),
        ("class", TokenType::Class),
        ("else", TokenType::Else),
        ("false", TokenType::False),
        ("for", TokenType::For),
        ("fun", TokenType::Fun),
        ("if", TokenType::If),
        ("nil", TokenType::Nil),
        ("or", TokenType::Or),
        ("print", TokenType::Print),
        ("return", TokenType::Return),
        ("super", TokenType::Super),
        ("this", TokenType::This),
        ("true", TokenType::True),
        ("var", TokenType::Var),
        ("while", TokenType::While),
    ];
    for (text, kind) in cases {
        assert_eq!(kinds(text), vec![kind, TokenType::Eof]);
    }
    assert_eq!(
        kinds("While _x9"),
        vec![
            TokenType::Identifier("While".to_string()),
            TokenType::Identifier("_x9".to_string()),
            TokenType::Eof
        ]
    );
}

#[test]
fn scanning_is_deterministic() {
    let src = "fun f(a) { print a >= 1.25; } // done\n\"s\"";
    assert_eq!(scan(src), scan(src));
}

#[test]
fn string_literal_keeps_text_and_counts_lines() {
    let tokens = scan("\"a\nb\" ;").unwrap();
    assert_eq!(tokens[0].token_type(), &TokenType::String("a\nb".to_string()));
    assert_eq!(tokens[0].lexeme(), "\"a\nb\"");
    assert_eq!(tokens[0].line(), 2);
    assert_eq!(tokens[1].token_type(), &TokenType::SemiColon);
    assert_eq!(tokens[1].line(), 2);
}

#[test]
fn string_literal_may_hold_non_ascii_text() {
    let tokens = scan("\"héllo ✓\"").unwrap();
    assert_eq!(tokens[0].token_type(), &TokenType::String("héllo ✓".to_string()));
    assert_eq!(tokens[0].lexeme(), "\"héllo ✓\"");
}

#[test]
fn invalid_character_reports_line_and_offset() {
    assert_eq!(
        scan("a\n  @"),
        Err(LuxtError::InvalidCharacter { location: CodeLocation::new(2, 3) })
    );
    assert_eq!(
        scan("é"),
        Err(LuxtError::InvalidCharacter { location: CodeLocation::new(1, 1) })
    );
}

#[test]
fn invalid_character_offset_after_two_byte_operator() {
    // the second byte of a two-byte operator does not move the line offset
    assert_eq!(
        scan("a>=#"),
        Err(LuxtError::InvalidCharacter { location: CodeLocation::new(1, 3) })
    );
}

#[test]
fn token_constructors() {
    let t = Token::new(TokenType::Plus, "+".to_string(), 7);
    assert_eq!(t.token_type(), &TokenType::Plus);
    assert_eq!(t.lexeme(), "+");
    assert_eq!(t.line(), 7);
    let e = Token::eof(3);
    assert_eq!(e.token_type(), &TokenType::Eof);
    assert_eq!(e.lexeme(), "");
    assert_eq!(e.line(), 3);
}

#[test]
fn fresh_scanner_is_at_end_only_on_empty_input() {
    assert!(Scanner::new("".as_bytes()).is_at_end());
    assert!(!Scanner::new("x".as_bytes()).is_at_end());
}

#[test]
fn literal_values_of_tokens() {

    let tokens = scan("3.25 \"hi\" true false nil x +").unwrap();
    assert_eq!(tokens[0].literal(), Some(Literal::Number("3.25".to_string())));
    assert_eq!(tokens[1].literal(), Some(Literal::String("hi".to_string())));
    assert_eq!(tokens[2].literal(), Some(Literal::Boolean(true)));
    assert_eq!(tokens[3].literal(), Some(Literal::Boolean(false)));
    assert_eq!(tokens[4].literal(), Some(Literal::Nil));
    assert_eq!(tokens[5].literal(), None);
    assert_eq!(tokens[6].literal(), None);
    assert_eq!(tokens[7].literal(), None);
}

#[test]
fn numbers_and_lines_across_a_program() {
    let tokens = scan("while (n <= 10)\n{\n  n = n + 0.5;\n}\n").unwrap();
    let lines: Vec<usize> = tokens.iter().map(|t| t.line()).collect();
    assert_eq!(lines, vec![1, 1, 1, 1, 1, 1, 2, 3, 3, 3, 3, 3, 3, 4, 5]);
    assert_eq!(number_value(tokens[4].token_type()), 10.0);
    assert_eq!(number_value(tokens[11].token_type()), 0.5);
}
