//! Tokens produced by the SMPL tokenizer and consumed by the parser.

use vstd::prelude::*;

use crate::span::Span;

verus! {

/// A lexical token of the SMPL language.
///
/// Float literals keep their source text: the library does no floating-point arithmetic.
pub enum Token {
    Plus,
    Minus,
    Invert,
    Star,
    Slash,
    Percent,
    Gte,
    Gt,
    Lte,
    Lt,
    LAnd,
    LOr,
    Eq,
    NEq,
    IntLiteral(i64),
    FloatLiteral(String),
    BoolLiteral(bool),
    StringLiteral(String),
    LParen,
    RParen,
    LBracket,
    RBracket,
    LBrace,
    RBrace,
    Comma,
    Semi,
    Colon,
    ColonColon,
    Dot,
    Pipe,
    Arrow,
    Assign,
    Pound,
    Identifier(String),
    Init,
    Fn,
    Mod,
    Struct,
    Builtin,
    Use,
    Unchecked,
    Let,
    If,
    Elif,
    Else,
    While,
    Return,
    Continue,
    Break,
}

impl Token {
    /// A copy of the token.
    pub fn duplicate(&self) -> (r: Token)
        ensures
            r == *self,
    {
        match self {
            Token::Plus => Token::Plus,
            Token::Minus => Token::Minus,
            Token::Invert => Token::Invert,
            Token::Star => Token::Star,
            Token::Slash => Token::Slash,
            Token::Percent => Token::Percent,
            Token::Gte => Token::Gte,
            Token::Gt => Token::Gt,
            Token::Lte => Token::Lte,
            Token::Lt => Token::Lt,
            Token::LAnd => Token::LAnd,
            Token::LOr => Token::LOr,
            Token::Eq => Token::Eq,
            Token::NEq => Token::NEq,
            Token::IntLiteral(i) => Token::IntLiteral(*i),
            Token::FloatLiteral(s) => Token::FloatLiteral(s.clone()),
            Token::BoolLiteral(b) => Token::BoolLiteral(*b),
            Token::StringLiteral(s) => Token::StringLiteral(s.clone()),
            Token::LParen => Token::LParen,
            Token::RParen => Token::RParen,
            Token::LBracket => Token::LBracket,
            Token::RBracket => Token::RBracket,
            Token::LBrace => Token::LBrace,
            Token::RBrace => Token::RBrace,
            Token::Comma => Token::Comma,
            Token::Semi => Token::Semi,
            Token::Colon => Token::Colon,
            Token::ColonColon => Token::ColonColon,
            Token::Dot => Token::Dot,
            Token::Pipe => Token::Pipe,
            Token::Arrow => Token::Arrow,
            Token::Assign => Token::Assign,
            Token::Pound => Token::Pound,
            Token::Identifier(s) => Token::Identifier(s.clone()),
            Token::Init => Token::Init,
            Token::Fn => Token::Fn,
            Token::Mod => Token::Mod,
            Token::Struct => Token::Struct,
            Token::Builtin => Token::Builtin,
            Token::Use => Token::Use,
            Token::Unchecked => Token::Unchecked,
            Token::Let => Token::Let,
            Token::If => Token::If,
            Token::Elif => Token::Elif,
            Token::Else => Token::Else,
            Token::While => Token::While,
            Token::Return => Token::Return,
            Token::Continue => Token::Continue,
            Token::Break => Token::Break,
        }
    }
}

/// A token together with the source span it was read from.
pub struct SpannedToken {
    pub token: Token,
    pub span: Span,
}

} // verus!
