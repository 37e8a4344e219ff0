//! Token kinds, parser errors and the primitive operations on the token stream
//! that the statement and expression parsers are built from.

use vstd::prelude::*;

use crate::span::Span;
use crate::ast::{Expr, Ident, Literal};
use crate::tokens::{SpannedToken, Token};

verus! {

/// The kind of a token, without its payload.
#[derive(Clone, Copy, Debug, PartialEq, Eq, Structural)]
pub enum TokKind {
    Plus,
    Minus,
    Invert,
    Star,
    Slash,
    Percent,
    Gte,
    Gt,
    Lte,
    Lt,
    LAnd,
    LOr,
    Eq,
    NEq,
    IntLiteral,
    FloatLiteral,
    BoolLiteral,
    StringLiteral,
    LParen,
    RParen,
    LBracket,
    RBracket,
    LBrace,
    RBrace,
    Comma,
    Semi,
    Colon,
    ColonColon,
    Dot,
    Pipe,
    Arrow,
    Assign,
    Pound,
    Identifier,
    Init,
    Fn,
    Mod,
    Struct,
    Builtin,
    Use,
    Unchecked,
    Let,
    If,
    Elif,
    Else,
    While,
    Return,
    Continue,
    Break,
}

/// The kind of a token.
pub open spec fn kind_of(t: Token) -> TokKind {
    match t {
        Token::Plus => TokKind::Plus,
        Token::Minus => TokKind::Minus,
        Token::Invert => TokKind::Invert,
        Token::Star => TokKind::Star,
        Token::Slash => TokKind::Slash,
        Token::Percent => TokKind::Percent,
        Token::Gte => TokKind::Gte,
        Token::Gt => TokKind::Gt,
        Token::Lte => TokKind::Lte,
        Token::Lt => TokKind::Lt,
        Token::LAnd => TokKind::LAnd,
        Token::LOr => TokKind::LOr,
        Token::Eq => TokKind::Eq,
        Token::NEq => TokKind::NEq,
        Token::IntLiteral(..) => TokKind::IntLiteral,
        Token::FloatLiteral(..) => TokKind::FloatLiteral,
        Token::BoolLiteral(..) => TokKind::BoolLiteral,
        Token::StringLiteral(..) => TokKind::StringLiteral,
        Token::LParen => TokKind::LParen,
        Token::RParen => TokKind::RParen,
        Token::LBracket => TokKind::LBracket,
        Token::RBracket => TokKind::RBracket,
        Token::LBrace => TokKind::LBrace,
        Token::RBrace => TokKind::RBrace,
        Token::Comma => TokKind::Comma,
        Token::Semi => TokKind::Semi,
        Token::Colon => TokKind::Colon,
        Token::ColonColon => TokKind::ColonColon,
        Token::Dot => TokKind::Dot,
        Token::Pipe => TokKind::Pipe,
        Token::Arrow => TokKind::Arrow,
        Token::Assign => TokKind::Assign,
        Token::Pound => TokKind::Pound,
        Token::Identifier(..) => TokKind::Identifier,
        Token::Init => TokKind::Init,
        Token::Fn => TokKind::Fn,
        Token::Mod => TokKind::Mod,
        Token::Struct => TokKind::Struct,
        Token::Builtin => TokKind::Builtin,
        Token::Use => TokKind::Use,
        Token::Unchecked => TokKind::Unchecked,
        Token::Let => TokKind::Let,
        Token::If => TokKind::If,
        Token::Elif => TokKind::Elif,
        Token::Else => TokKind::Else,
        Token::While => TokKind::While,
        Token::Return => TokKind::Return,
        Token::Continue => TokKind::Continue,
        Token::Break => TokKind::Break,
    }
}

/// The kind of the token at position `i`, if there is one.
pub open spec fn kind_at(toks: Seq<SpannedToken>, i: int) -> Option<TokKind> {
    if 0 <= i < toks.len() {
        Some(kind_of(toks[i].token))
    } else {
        None
    }
}

/// The token at position `i` has kind `k`.
pub open spec fn at(toks: Seq<SpannedToken>, i: int, k: TokKind) -> bool {
    kind_at(toks, i) == Some(k)
}

/// The kind of a token.
pub fn token_kind(t: &Token) -> (r: TokKind)
    ensures
        r == kind_of(*t),
{
    match t {
        Token::Plus => TokKind::Plus,
        Token::Minus => TokKind::Minus,
        Token::Invert => TokKind::Invert,
        Token::Star => TokKind::Star,
        Token::Slash => TokKind::Slash,
        Token::Percent => TokKind::Percent,
        Token::Gte => TokKind::Gte,
        Token::Gt => TokKind::Gt,
        Token::Lte => TokKind::Lte,
        Token::Lt => TokKind::Lt,
        Token::LAnd => TokKind::LAnd,
        Token::LOr => TokKind::LOr,
        Token::Eq => TokKind::Eq,
        Token::NEq => TokKind::NEq,
        Token::IntLiteral(..) => TokKind::IntLiteral,
        Token::FloatLiteral(..) => TokKind::FloatLiteral,
        Token::BoolLiteral(..) => TokKind::BoolLiteral,
        Token::StringLiteral(..) => TokKind::StringLiteral,
        Token::LParen => TokKind::LParen,
        Token::RParen => TokKind::RParen,
        Token::LBracket => TokKind::LBracket,
        Token::RBracket => TokKind::RBracket,
        Token::LBrace => TokKind::LBrace,
        Token::RBrace => TokKind::RBrace,
        Token::Comma => TokKind::Comma,
        Token::Semi => TokKind::Semi,
        Token::Colon => TokKind::Colon,
        Token::ColonColon => TokKind::ColonColon,
        Token::Dot => TokKind::Dot,
        Token::Pipe => TokKind::Pipe,
        Token::Arrow => TokKind::Arrow,
        Token::Assign => TokKind::Assign,
        Token::Pound => TokKind::Pound,
        Token::Identifier(..) => TokKind::Identifier,
        Token::Init => TokKind::Init,
        Token::Fn => TokKind::Fn,
        Token::Mod => TokKind::Mod,
        Token::Struct => TokKind::Struct,
        Token::Builtin => TokKind::Builtin,
        Token::Use => TokKind::Use,
        Token::Unchecked => TokKind::Unchecked,
        Token::Let => TokKind::Let,
        Token::If => TokKind::If,
        Token::Elif => TokKind::Elif,
        Token::Else => TokKind::Else,
        Token::While => TokKind::While,
        Token::Return => TokKind::Return,
        Token::Continue => TokKind::Continue,
        Token::Break => TokKind::Break,
    }
}

/// What went wrong while parsing.
pub enum ParserErrorKind {
    /// The token stream ended where a token was expected.
    UnexpectedEOI,
    /// A token of another kind was found.
    UnexpectedToken(Token),
    /// A piped expression (`|>`) with a part, this one, that is no function call.
    InvalidPiping(Expr),
    /// `UNCHECKED` parameters on a function that is not a builtin.
    NonbuiltinUncheckedParameters,
    /// A function without a body that is not a builtin.
    NoFnBody,
    /// An array size that is not positive.
    InvalidArraySize(i64),
}

/// A parse error and the token position at which it was found.
pub struct ParserError {
    pub kind: ParserErrorKind,
    pub pos: usize,
}

/// The error for an unexpected token (or end of input) at position `i`.
pub open spec fn error_at(toks: Seq<SpannedToken>, i: int) -> ParserError {
    if 0 <= i < toks.len() {
        ParserError { kind: ParserErrorKind::UnexpectedToken(toks[i].token), pos: i as usize }
    } else {
        ParserError { kind: ParserErrorKind::UnexpectedEOI, pos: i as usize }
    }
}

/// The error for an unexpected token (or end of input) at `pos`.
pub fn unexpected(toks: &Vec<SpannedToken>, pos: usize) -> (e: ParserError)
    ensures
        e == error_at(toks@, pos as int),
{
    if pos < toks.len() {
        ParserError { kind: ParserErrorKind::UnexpectedToken(toks[pos].token.duplicate()), pos }
    } else {
        ParserError { kind: ParserErrorKind::UnexpectedEOI, pos }
    }
}

/// The kind of the token at `pos`, if any.
pub fn peek_kind(toks: &Vec<SpannedToken>, pos: usize) -> (r: Option<TokKind>)
    ensures
        r == kind_at(toks@, pos as int),
{
    if pos < toks.len() {
        Some(token_kind(&toks[pos].token))
    } else {
        None
    }
}

/// The next token exists and has kind `k`.
pub fn next_is(toks: &Vec<SpannedToken>, pos: usize, k: TokKind) -> (r: bool)
    ensures
        r == at(toks@, pos as int, k),
{
    match peek_kind(toks, pos) {
        Some(found) => found == k,
        None => false,
    }
}

/// Consumes a token of kind `k` at `pos` and returns its span.
pub fn consume(toks: &Vec<SpannedToken>, pos: usize, k: TokKind) -> (r: Result<Span, ParserError>)
    ensures
        at(toks@, pos as int, k) ==> r == Ok::<Span, ParserError>(toks@[pos as int].span),
        !at(toks@, pos as int, k) ==> r == Err::<Span, ParserError>(error_at(toks@, pos as int)),
{
    if next_is(toks, pos, k) {
        Ok(toks[pos].span)
    } else {
        Err(unexpected(toks, pos))
    }
}

/// The name carried by the identifier token at position `i`, if it is one.
pub open spec fn ident_at(toks: Seq<SpannedToken>, i: int) -> Option<Ident> {
    if 0 <= i < toks.len() {
        match toks[i].token {
            Token::Identifier(s) => Some(Ident(s)),
            _ => None,
        }
    } else {
        None
    }
}

/// Consumes an identifier token at `pos`.
pub fn consume_ident(toks: &Vec<SpannedToken>, pos: usize) -> (r: Result<(Ident, Span), ParserError>)
    ensures
        ident_at(toks@, pos as int) matches Some(id) ==> r == Ok::<(Ident, Span), ParserError>(
            (id, toks@[pos as int].span),
        ),
        ident_at(toks@, pos as int) is None ==> r == Err::<(Ident, Span), ParserError>(
            error_at(toks@, pos as int),
        ),
{
    if pos < toks.len() {
        match &toks[pos].token {
            Token::Identifier(s) => Ok((Ident(s.clone()), toks[pos].span)),
            _ => Err(unexpected(toks, pos)),
        }
    } else {
        Err(unexpected(toks, pos))
    }
}

/// The value carried by the integer literal token at position `i`, if it is one.
pub open spec fn int_at(toks: Seq<SpannedToken>, i: int) -> Option<i64> {
    if 0 <= i < toks.len() {
        match toks[i].token {
            Token::IntLiteral(v) => Some(v),
            _ => None,
        }
    } else {
        None
    }
}

/// Consumes an integer literal token at `pos`.
pub fn consume_int(toks: &Vec<SpannedToken>, pos: usize) -> (r: Result<(i64, Span), ParserError>)
    ensures
        int_at(toks@, pos as int) matches Some(v) ==> r == Ok::<(i64, Span), ParserError>(
            (v, toks@[pos as int].span),
        ),
        int_at(toks@, pos as int) is None ==> r == Err::<(i64, Span), ParserError>(
            error_at(toks@, pos as int),
        ),
{
    if pos < toks.len() {
        match &toks[pos].token {
            Token::IntLiteral(v) => Ok((*v, toks[pos].span)),
            _ => Err(unexpected(toks, pos)),
        }
    } else {
        Err(unexpected(toks, pos))
    }
}

/// The literal that the token at position `i` stands for, if it is a literal.
pub open spec fn literal_at(toks: Seq<SpannedToken>, i: int) -> Option<Literal> {
    if 0 <= i < toks.len() {
        match toks[i].token {
            Token::IntLiteral(v) => Some(Literal::Int(v)),
            Token::FloatLiteral(s) => Some(Literal::Float(s)),
            Token::BoolLiteral(b) => Some(Literal::Bool(b)),
            Token::StringLiteral(s) => Some(Literal::String(s)),
            _ => None,
        }
    } else {
        None
    }
}

/// The text carried by the string literal token at position `i`, if it is one.
pub open spec fn string_at(toks: Seq<SpannedToken>, i: int) -> Option<String> {
    if 0 <= i < toks.len() {
        match toks[i].token {
            Token::StringLiteral(s) => Some(s),
            _ => None,
        }
    } else {
        None
    }
}

/// Consumes a string literal token at `pos`.
pub fn consume_string(toks: &Vec<SpannedToken>, pos: usize) -> (r: Result<(String, Span), ParserError>)
    ensures
        string_at(toks@, pos as int) matches Some(v) ==> r == Ok::<(String, Span), ParserError>(
            (v, toks@[pos as int].span),
        ),
        string_at(toks@, pos as int) is None ==> r == Err::<(String, Span), ParserError>(
            error_at(toks@, pos as int),
        ),
{
    if pos < toks.len() {
        match &toks[pos].token {
            Token::StringLiteral(s) => Ok((s.clone(), toks[pos].span)),
            _ => Err(unexpected(toks, pos)),
        }
    } else {
        Err(unexpected(toks, pos))
    }
}

} // verus!
