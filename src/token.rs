use crate::types::{PrimitiveType, TypeView};
use vstd::prelude::*;

verus! {

#[derive(Debug, PartialEq)]
pub enum TokenKind {
    BraceOpen,
    BraceClose,
    ParenOpen,
    ParenClose,
    Semicolon,
    Comma,
    Colon,
    Plus,
    Minus,
    FSlash,
    Asterisk,
    Assign,
    EqualTo,
    NotEqualTo,
    LessThan,
    LessThanEqualTo,
    GreaterThan,
    GreaterThanEqualTo,
    Bang,
    /// `->`
    MapsTo,
    Let,
    If,
    Else,
    Return,
    While,
    /// `fn`
    FunctionDec,
    Extern,
    True,
    False,
    /// A primitive type name: `Int`, `Float`, `Bool` or `String`.
    Type(PrimitiveType),
    Identifier(String),
    IntLiteral(i64),
    /// The source text of a float literal.
    FloatLiteral(String),
    /// The value of a string literal, escapes resolved.
    StringLiteral(String),
}

/// The mathematical value of a token kind.
pub enum KindView {
    BraceOpen,
    BraceClose,
    ParenOpen,
    ParenClose,
    Semicolon,
    Comma,
    Colon,
    Plus,
    Minus,
    FSlash,
    Asterisk,
    Assign,
    EqualTo,
    NotEqualTo,
    LessThan,
    LessThanEqualTo,
    GreaterThan,
    GreaterThanEqualTo,
    Bang,
    MapsTo,
    Let,
    If,
    Else,
    Return,
    While,
    FunctionDec,
    Extern,
    True,
    False,
    Type(TypeView),
    Identifier(Seq<char>),
    IntLiteral(i64),
    FloatLiteral(Seq<char>),
    StringLiteral(Seq<char>),
}

impl View for TokenKind {
    type V = KindView;

    open spec fn view(&self) -> KindView {
        match *self {
            TokenKind::BraceOpen => KindView::BraceOpen,
            TokenKind::BraceClose => KindView::BraceClose,
            TokenKind::ParenOpen => KindView::ParenOpen,
            TokenKind::ParenClose => KindView::ParenClose,
            TokenKind::Semicolon => KindView::Semicolon,
            TokenKind::Comma => KindView::Comma,
            TokenKind::Colon => KindView::Colon,
            TokenKind::Plus => KindView::Plus,
            TokenKind::Minus => KindView::Minus,
            TokenKind::FSlash => KindView::FSlash,
            TokenKind::Asterisk => KindView::Asterisk,
            TokenKind::Assign => KindView::Assign,
            TokenKind::EqualTo => KindView::EqualTo,
            TokenKind::NotEqualTo => KindView::NotEqualTo,
            TokenKind::LessThan => KindView::LessThan,
            TokenKind::LessThanEqualTo => KindView::LessThanEqualTo,
            TokenKind::GreaterThan => KindView::GreaterThan,
            TokenKind::GreaterThanEqualTo => KindView::GreaterThanEqualTo,
            TokenKind::Bang => KindView::Bang,
            TokenKind::MapsTo => KindView::MapsTo,
            TokenKind::Let => KindView::Let,
            TokenKind::If => KindView::If,
            TokenKind::Else => KindView::Else,
            TokenKind::Return => KindView::Return,
            TokenKind::While => KindView::While,
            TokenKind::FunctionDec => KindView::FunctionDec,
            TokenKind::Extern => KindView::Extern,
            TokenKind::True => KindView::True,
            TokenKind::False => KindView::False,
            TokenKind::Type(p) => KindView::Type(p@),
            TokenKind::Identifier(s) => KindView::Identifier(s@),
            TokenKind::IntLiteral(i) => KindView::IntLiteral(i),
            TokenKind::FloatLiteral(s) => KindView::FloatLiteral(s@),
            TokenKind::StringLiteral(s) => KindView::StringLiteral(s@),
        }
    }
}

/// A token with the line and column of its first character (both from 1).
#[derive(Debug, PartialEq)]
pub struct Token {
    pub kind: TokenKind,
    pub line: u32,
    pub col: u32,
}

pub struct TokenView {
    pub kind: KindView,
    pub line: nat,
    pub col: nat,
}

impl View for Token {
    type V = TokenView;

    open spec fn view(&self) -> TokenView {
        TokenView { kind: self.kind@, line: self.line as nat, col: self.col as nat }
    }
}

impl Token {
    pub fn new(kind: TokenKind, line: u32, col: u32) -> (r: Token)
        ensures
            r.kind == kind,
            r.line == line,
            r.col == col,
    {
        Token { kind, line, col }
    }
}

} // verus!
