//! Tokens, as the lexer hands them to the parser.
use vstd::prelude::*;
use crate::common::{Span, StrLit, Symbol};

verus! {

/// The kind of a token, with its payload where it has one.
#[derive(Debug, Clone, Copy, PartialEq, Eq, Hash, Structural)]
pub enum TokenKind {
    Identifier(Symbol),
    Directive(Symbol),
    IntLit(i64),
    CharLit(char),
    StrLit(StrLit),
    CStrLit(StrLit),
    True,
    False,
    Mut,
    Let,
    For,
    In,
    Return,
    While,
    If,
    Else,
    Match,
    Break,
    Defer,
    Fun,
    Module,
    Type,
    Interface,
    Impl,
    Struct,
    Enum,
    As,
    Plus,
    Minus,
    Mult,
    Div,
    Modulo,
    EqEq,
    Diff,
    Lt,
    Leq,
    Gt,
    Geq,
    And,
    Or,
    Not,
    BitAnd,
    BitOr,
    BitXor,
    DotDot,
    Dot,
    Comma,
    Colon,
    Semicolon,
    Access,
    AddressOf,
    Deref,
    OpenBra,
    CloseBra,
    OpenPar,
    ClosePar,
    OpenSqr,
    CloseSqr,
    Eq,
    PlusEq,
    MinusEq,
    MultEq,
    DivEq,
    ModuloEq,
    BigArrow,
}

/// What the parser learns of a failed lexing: where it stopped.
#[derive(Debug, Clone, Copy, PartialEq, Eq, Hash, Structural)]
pub struct LexError {
    pub offset: usize,
}

/// A token and where it stands in the source.
#[derive(Debug, Clone, Copy, PartialEq, Eq, Hash, Structural)]
pub struct Token {
    pub kind: TokenKind,
    pub location: Span,
}

/// The text by which diagnostics name a token kind.
pub open spec fn token_text(k: TokenKind) -> Seq<char> {
    match k {
        TokenKind::Identifier(_) => "identifier"@,
        TokenKind::Directive(_) => "directive"@,
        TokenKind::IntLit(_) => "integer literal"@,
        TokenKind::CharLit(_) => "character literal"@,
        TokenKind::StrLit(_) => "string literal"@,
        TokenKind::CStrLit(_) => "C string literal"@,
        TokenKind::True => "true"@,
        TokenKind::False => "false"@,
        TokenKind::Mut => "mut"@,
        TokenKind::Let => "let"@,
        TokenKind::For => "for"@,
        TokenKind::In => "in"@,
        TokenKind::Return => "return"@,
        TokenKind::While => "while"@,
        TokenKind::If => "if"@,
        TokenKind::Else => "else"@,
        TokenKind::Match => "match"@,
        TokenKind::Break => "break"@,
        TokenKind::Defer => "defer"@,
        TokenKind::Fun => "fun"@,
        TokenKind::Module => "module"@,
        TokenKind::Type => "type"@,
        TokenKind::Interface => "interface"@,
        TokenKind::Impl => "impl"@,
        TokenKind::Struct => "struct"@,
        TokenKind::Enum => "enum"@,
        TokenKind::As => "as"@,
        TokenKind::Plus => "+"@,
        TokenKind::Minus => "-"@,
        TokenKind::Mult => "*"@,
        TokenKind::Div => "/"@,
        TokenKind::Modulo => "%"@,
        TokenKind::EqEq => "=="@,
        TokenKind::Diff => "!="@,
        TokenKind::Lt => "<"@,
        TokenKind::Leq => "<="@,
        TokenKind::Gt => ">"@,
        TokenKind::Geq => ">="@,
        TokenKind::And => "&&"@,
        TokenKind::Or => "||"@,
        TokenKind::Not => "!"@,
        TokenKind::BitAnd => "&"@,
        TokenKind::BitOr => "|"@,
        TokenKind::BitXor => "^"@,
        TokenKind::DotDot => ".."@,
        TokenKind::Dot => "."@,
        TokenKind::Comma => ","@,
        TokenKind::Colon => ":"@,
        TokenKind::Semicolon => ";"@,
        TokenKind::Access => "::"@,
        TokenKind::AddressOf => "@"@,
        TokenKind::Deref => "postfix dereference"@,
        TokenKind::OpenBra => "{"@,
        TokenKind::CloseBra => "}"@,
        TokenKind::OpenPar => "("@,
        TokenKind::ClosePar => ")"@,
        TokenKind::OpenSqr => "["@,
        TokenKind::CloseSqr => "]"@,
        TokenKind::Eq => "="@,
        TokenKind::PlusEq => "+="@,
        TokenKind::MinusEq => "-="@,
        TokenKind::MultEq => "*="@,
        TokenKind::DivEq => "/="@,
        TokenKind::ModuloEq => "%="@,
        TokenKind::BigArrow => "=>"@,
    }
}

impl TokenKind {
    /// The text by which diagnostics name this token kind.
    pub fn display(&self) -> (r: String)
        ensures
            r@ == token_text(*self),
    {
        let s: &str = match self {
            TokenKind::Identifier(_) => "identifier",
            TokenKind::Directive(_) => "directive",
            TokenKind::IntLit(_) => "integer literal",
            TokenKind::CharLit(_) => "character literal",
            TokenKind::StrLit(_) => "string literal",
            TokenKind::CStrLit(_) => "C string literal",
            TokenKind::True => "true",
            TokenKind::False => "false",
            TokenKind::Mut => "mut",
            TokenKind::Let => "let",
            TokenKind::For => "for",
            TokenKind::In => "in",
            TokenKind::Return => "return",
            TokenKind::While => "while",
            TokenKind::If => "if",
            TokenKind::Else => "else",
            TokenKind::Match => "match",
            TokenKind::Break => "break",
            TokenKind::Defer => "defer",
            TokenKind::Fun => "fun",
            TokenKind::Module => "module",
            TokenKind::Type => "type",
            TokenKind::Interface => "interface",
            TokenKind::Impl => "impl",
            TokenKind::Struct => "struct",
            TokenKind::Enum => "enum",
            TokenKind::As => "as",
            TokenKind::Plus => "+",
            TokenKind::Minus => "-",
            TokenKind::Mult => "*",
            TokenKind::Div => "/",
            TokenKind::Modulo => "%",
            TokenKind::EqEq => "==",
            TokenKind::Diff => "!=",
            TokenKind::Lt => "<",
            TokenKind::Leq => "<=",
            TokenKind::Gt => ">",
            TokenKind::Geq => ">=",
            TokenKind::And => "&&",
            TokenKind::Or => "||",
            TokenKind::Not => "!",
            TokenKind::BitAnd => "&",
            TokenKind::BitOr => "|",
            TokenKind::BitXor => "^",
            TokenKind::DotDot => "..",
            TokenKind::Dot => ".",
            TokenKind::Comma => ",",
            TokenKind::Colon => ":",
            TokenKind::Semicolon => ";",
            TokenKind::Access => "::",
            TokenKind::AddressOf => "@",
            TokenKind::Deref => "postfix dereference",
            TokenKind::OpenBra => "{",
            TokenKind::CloseBra => "}",
            TokenKind::OpenPar => "(",
            TokenKind::ClosePar => ")",
            TokenKind::OpenSqr => "[",
            TokenKind::CloseSqr => "]",
            TokenKind::Eq => "=",
            TokenKind::PlusEq => "+=",
            TokenKind::MinusEq => "-=",
            TokenKind::MultEq => "*=",
            TokenKind::DivEq => "/=",
            TokenKind::ModuloEq => "%=",
            TokenKind::BigArrow => "=>",
        };
        s.to_owned()
    }
}

} // verus!
