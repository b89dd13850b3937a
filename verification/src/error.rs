//! Why tokenizing or parsing stopped.

use crate::token::TokenKind;
use vstd::prelude::*;

verus! {

/// No token rule matches the text that starts at `position`, counted in
/// characters from the start of the source.
#[derive(Clone, Copy, Debug, PartialEq, Eq, Structural)]
pub struct LexError {
    pub position: usize,
}

/// What the parser was looking for when it stopped.
#[derive(Clone, Copy, Debug, PartialEq, Eq, Structural)]
pub enum Expected {
    /// One particular token.
    Token(TokenKind),
    /// The start of a top-level object.
    ProgramObject,
    /// The name of a function, after `fn`.
    FunctionName,
    /// The label of a parameter.
    ParameterName,
    /// The name of a type.
    TypeName,
    /// The name of a variable, after `let`.
    VariableName,
    /// The start of a statement.
    Statement,
    /// The start of an expression.
    Expression,
    /// One of the operators `+ - * /`.
    BinaryOperator,
    /// A numeral that can be read as an integer or as a decimal fraction.
    Numeral,
}

/// What the parser met instead.
#[derive(Clone, Copy, Debug, PartialEq, Eq, Structural)]
pub enum Found {
    /// A token of this kind.
    Token(TokenKind),
    /// Nothing: the tokens had run out.
    EndOfTokens,
}

/// A syntax error: the first point at which the tokens stopped fitting the grammar.
#[derive(Clone, Copy, Debug, PartialEq, Eq, Structural)]
pub struct ParseError {
    pub expected: Expected,
    pub found: Found,
}

impl ParseError {
    /// Whether the error is due to the input ending too early: the tokens
    /// ran out, or the end marker stood where more was needed.
    pub open spec fn spec_is_premature_end(&self) -> bool {
        self.found == Found::EndOfTokens || self.found == Found::Token(TokenKind::EOF)
    }

    #[verifier::when_used_as_spec(spec_is_premature_end)]
    pub fn is_premature_end(&self) -> (b: bool)
        ensures
            b == self.spec_is_premature_end(),
    {
        match self.found {
            Found::EndOfTokens => true,
            Found::Token(kind) => kind == TokenKind::EOF,
        }
    }
}

/// The error for meeting a token of kind `found` where `expected` was due.
pub open spec fn unexpected(expected: Expected, found: TokenKind) -> ParseError {
    ParseError { expected, found: Found::Token(found) }
}

/// The error for running out of tokens where `expected` was due.
pub open spec fn ran_out(expected: Expected) -> ParseError {
    ParseError { expected, found: Found::EndOfTokens }
}

} // verus!
