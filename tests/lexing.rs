use trilc::lexer::{LexFault, Lexer};
use trilc::token::{Token, TokenKind};
use trilc::types::PrimitiveType;

fn kinds(src: &str) -> Vec<TokenKind> {
    Lexer::new(src.to_string()).lex().unwrap().into_iter().map(|t| t.kind).collect()
}

fn ident(s: &str) -> TokenKind {
    TokenKind::Identifier(s.to_string())
}

#[test]
fn add_function_token_sequence() {
    let got = kinds("fn add(a: Int, b: Int) -> Int { return a + b; }");
    let want = vec![
        TokenKind::FunctionDec,
        ident("add"),
        TokenKind::ParenOpen,
        ident("a"),
        TokenKind::Colon,
        TokenKind::Type(PrimitiveType::Int),
        TokenKind::Comma,
        ident("b"),
        TokenKind::Colon,
        TokenKind::Type(PrimitiveType::Int),
        TokenKind::ParenClose,
        TokenKind::MapsTo,
        TokenKind::Type(PrimitiveType::Int),
        TokenKind::BraceOpen,
        TokenKind::Return,
        ident("a"),
        TokenKind::Plus,
        ident("b"),
        TokenKind::Semicolon,
        TokenKind::BraceClose,
    ];
    assert_eq!(got, want);
}

#[test]
fn lexing_twice_gives_the_same_tokens() {
    let src = "fn f(x: Float) { let s = \"a\\n\"; while x < 2.5 { x = x * 2.0; } } // done";
    let a = Lexer::new(src.to_string()).lex().unwrap();
    let b = Lexer::new(src.to_string()).lex().unwrap();
    assert_eq!(a, b);
    assert!(!a.is_empty());
}

#[test]
fn two_character_operators() {
    assert_eq!(
        kinds("== != <= >= -> = ! < > - / *"),
        vec![
            TokenKind::EqualTo,
            TokenKind::NotEqualTo,
            TokenKind::LessThanEqualTo,
            TokenKind::GreaterThanEqualTo,
            TokenKind::MapsTo,
            TokenKind::Assign,
            TokenKind::Bang,
            TokenKind::LessThan,
            TokenKind::GreaterThan,
            TokenKind::Minus,
            TokenKind::FSlash,
            TokenKind::Asterisk,
        ]
    );
}

#[test]
fn keywords_and_type_names() {
    assert_eq!(
        kinds("let fn if else while return extern true false Int Float Bool String"),
        vec![
            TokenKind::Let,
            TokenKind::FunctionDec,
            TokenKind::If,
            TokenKind::Else,
            TokenKind::While,
            TokenKind::Return,
            TokenKind::Extern,
            TokenKind::True,
            TokenKind::False,
            TokenKind::Type(PrimitiveType::Int),
            TokenKind::Type(PrimitiveType::Float),
            TokenKind::Type(PrimitiveType::Bool),
            TokenKind::Type(PrimitiveType::String),
        ]
    );
}

#[test]
fn identifier_that_starts_with_a_keyword() {
    assert_eq!(kinds("lettuce if_x x1"), vec![ident("lettuce"), ident("if_x"), ident("x1")]);
}

#[test]
fn integer_and_float_literals() {
    assert_eq!(
        kinds("42 3.25 7. 9223372036854775807"),
        vec![
            TokenKind::IntLiteral(42),
            TokenKind::FloatLiteral("3.25".to_string()),
            TokenKind::FloatLiteral("7.".to_string()),
            TokenKind::IntLiteral(i64::MAX),
        ]
    );
}

#[test]
fn string_escapes() {
    assert_eq!(
        kinds("\"a\\nb\\\\c\\\"d\""),
        vec![TokenKind::StringLiteral("a\nb\\c\"d".to_string())]
    );
}

#[test]
fn positions_of_tokens() {
    let toks = Lexer::new("let\n  x = 10;".to_string()).lex().unwrap();
    assert_eq!(toks[0], Token::new(TokenKind::Let, 1, 1));
    assert_eq!(toks[1], Token::new(ident("x"), 2, 3));
    assert_eq!(toks[2], Token::new(TokenKind::Assign, 2, 5));
    assert_eq!(toks[3], Token::new(TokenKind::IntLiteral(10), 2, 7));
    assert_eq!(toks[4], Token::new(TokenKind::Semicolon, 2, 9));
}

#[test]
fn comments_are_skipped() {
    let toks = Lexer::new("// a comment\nlet // more\nx".to_string()).lex().unwrap();
    assert_eq!(toks, vec![Token::new(TokenKind::Let, 2, 1), Token::new(ident("x"), 3, 1)]);
}

#[test]
fn empty_source_has_no_tokens() {
    assert_eq!(kinds(""), vec![]);
    assert_eq!(kinds("  \n\t "), vec![]);
}

#[test]
fn integer_too_large() {
    let r = Lexer::new("let x = 99999999999999999999;".to_string()).lex();
    assert_eq!(r, Err(LexFault::BadNumber(1, 9)));
}

#[test]
fn unterminated_string() {
    let r = Lexer::new("x = \"abc".to_string()).lex();
    assert_eq!(r, Err(LexFault::UnterminatedString(1, 5)));
}

#[test]
fn unknown_escape() {
    let r = Lexer::new("\"a\\qb\"".to_string()).lex();
    assert_eq!(r, Err(LexFault::BadEscape(1, 1)));
}
