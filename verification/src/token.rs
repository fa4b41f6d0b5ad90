//! Lexical tokens, as the parser consumes them.
//!
//! Producing tokens from source text is the tokenizer's job and lies outside
//! this crate; the types here only model what the parser reads: a reserved
//! symbol or an unsigned 32-bit number literal, together with the position
//! the token came from, kept so a diagnostic can point at it.

use vstd::prelude::*;

verus! {

/// One of the reserved operator or punctuation symbols.
#[derive(Clone, Copy, PartialEq, Eq, Structural, Debug)]
pub enum Symbol {
    /// `(`
    LParen,
    /// `)`
    RParen,
    /// `+`
    Plus,
    /// `-`
    Minus,
    /// `*`
    Star,
    /// `/`
    Slash,
    /// `==`
    EqEq,
    /// `!=`
    NotEq,
    /// `<`
    Lt,
    /// `<=`
    Le,
    /// `>`
    Gt,
    /// `>=`
    Ge,
}

/// What a token is: a reserved symbol or a number literal.
#[derive(Clone, Copy, PartialEq, Eq, Structural, Debug)]
pub enum TokenKind {
    Reserved(Symbol),
    Number(u32),
}

/// A classified lexical unit with its source position.
#[derive(Clone, Copy, PartialEq, Eq, Structural, Debug)]
pub struct Token {
    pub kind: TokenKind,
    /// Byte offset of the token in the source text, for diagnostics.
    pub pos: usize,
}

} // verus!
