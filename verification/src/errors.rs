use vstd::prelude::*;

verus! {

/// Failure of the lexer: a character that does not begin any token.
#[derive(Clone, Copy, PartialEq, Eq, Structural, Debug)]
pub enum LexError {
    IllegalCharacter(char),
}

/// Failure of the parser, naming the grammar expectation that was not met.
#[derive(Clone, Copy, PartialEq, Eq, Structural, Debug)]
pub enum ParseError {
    /// A `let` keyword was not followed by an identifier.
    ExpectedIdentifier,
    /// A specific punctuation character was required (`=` or `)`).
    ExpectedToken(char),
    /// The current token cannot start an atom.
    ExpectedExpression,
    /// Input remained after the last top-level expression.
    ExpectedEof,
}

/// Failure of the code generator: a variable was referenced before any
/// `let` binding introduced it.
#[derive(Debug)]
pub enum CompileError {
    UnresolvedVariable(String),
}

/// Failure of the evaluator backend.
#[derive(Debug)]
pub enum EvalError {
    /// A variable was referenced before any `let` binding introduced it.
    UnboundVariable(String),
    /// A division had a divisor equal to zero.
    DivisionByZero,
}

} // verus!
