use vstd::prelude::*;

verus! {

/// The kind of a lexical token.
#[derive(Clone, Copy, PartialEq, Eq, Structural, Debug)]
pub enum TokenType {
    LParen,
    RParen,
    Plus,
    Minus,
    Multiply,
    Divide,
    Assign,
    Semicolon,
    Number,
    Ident,
    Let,
    Eof,
}

/// One lexical token: its kind and the source text it was made from.
///
/// `num_bits` carries the 64-bit encoding of a numeric literal in the
/// module's binary value format. The lexer always leaves it 0; the host
/// that embeds this library fills it in for `Number` tokens before the
/// program is compiled, since the encoding itself is outside the scope
/// of the verified core.
#[derive(Debug)]
pub struct Token {
    pub token_type: TokenType,
    pub value: String,
    pub num_bits: u64,
}

/// The mathematical view of a token.
pub struct SpecToken {
    pub token_type: TokenType,
    pub value: Seq<char>,
    pub num_bits: u64,
}

impl View for Token {
    type V = SpecToken;

    open spec fn view(&self) -> SpecToken {
        SpecToken { token_type: self.token_type, value: self.value@, num_bits: self.num_bits }
    }
}

impl Clone for Token {
    fn clone(&self) -> (t: Token)
        ensures
            t@ == self@,
    {
        Token { token_type: self.token_type, value: self.value.clone(), num_bits: self.num_bits }
    }
}

impl Token {
    /// A fresh token of the given kind and text, with no numeric encoding.
    pub fn new(token_type: TokenType, value: String) -> (t: Token)
        ensures
            t@ == (SpecToken { token_type, value: value@, num_bits: 0 }),
    {
        Token { token_type, value, num_bits: 0 }
    }
}

} // verus!
