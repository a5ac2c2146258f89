//! Tokens of the source language.

use vstd::prelude::*;

verus! {

/// The kind of a scanned token: keywords, symbols, and literals.
#[derive(Debug, Clone, PartialEq)]
pub enum TokenType {
    // Keywords
    Tb,
    Neu,
    NeuKhong,
    Lap,
    Ham,
    TraVe,
    Dung,
    Sai,
    // Symbols
    LBrace,
    RBrace,
    LParen,
    RParen,
    Assign,
    Plus,
    Minus,
    Star,
    Slash,
    Eq,
    Gt,
    Lt,
    GtEq,
    LtEq,
    NotEq,
    Not,
    Comma,
    Dot,
    Colon,
    Arrow,
    FatArrow,
    // Literals and names
    Ident(String),
    Int(i64),
    Str(String),
    // Layout-mode headers
    ModeBrace,
    ModeIndent,
    ModeEnd,
    EOF,
}

impl TokenType {
    /// An exact copy; unlike a derived clone, its contract says so.
    pub fn duplicate(&self) -> (r: TokenType)
        ensures
            r == *self,
    {
        match self {
            TokenType::Tb => TokenType::Tb,
            TokenType::Neu => TokenType::Neu,
            TokenType::NeuKhong => TokenType::NeuKhong,
            TokenType::Lap => TokenType::Lap,
            TokenType::Ham => TokenType::Ham,
            TokenType::TraVe => TokenType::TraVe,
            TokenType::Dung => TokenType::Dung,
            TokenType::Sai => TokenType::Sai,
            TokenType::LBrace => TokenType::LBrace,
            TokenType::RBrace => TokenType::RBrace,
            TokenType::LParen => TokenType::LParen,
            TokenType::RParen => TokenType::RParen,
            TokenType::Assign => TokenType::Assign,
            TokenType::Plus => TokenType::Plus,
            TokenType::Minus => TokenType::Minus,
            TokenType::Star => TokenType::Star,
            TokenType::Slash => TokenType::Slash,
            TokenType::Eq => TokenType::Eq,
            TokenType::Gt => TokenType::Gt,
            TokenType::Lt => TokenType::Lt,
            TokenType::GtEq => TokenType::GtEq,
            TokenType::LtEq => TokenType::LtEq,
            TokenType::NotEq => TokenType::NotEq,
            TokenType::Not => TokenType::Not,
            TokenType::Comma => TokenType::Comma,
            TokenType::Dot => TokenType::Dot,
            TokenType::Colon => TokenType::Colon,
            TokenType::Arrow => TokenType::Arrow,
            TokenType::FatArrow => TokenType::FatArrow,
            TokenType::Ident(s) => TokenType::Ident(s.clone()),
            TokenType::Int(v) => TokenType::Int(*v),
            TokenType::Str(s) => TokenType::Str(s.clone()),
            TokenType::ModeBrace => TokenType::ModeBrace,
            TokenType::ModeIndent => TokenType::ModeIndent,
            TokenType::ModeEnd => TokenType::ModeEnd,
            TokenType::EOF => TokenType::EOF,
        }
    }
}

/// A token with its position in the source text.
#[derive(Debug, Clone)]
pub struct Token {
    pub kind: TokenType,
    pub line: usize,
    pub col: usize,
    pub length: usize,
}

} // verus!
