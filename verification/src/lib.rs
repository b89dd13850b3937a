//! Lexical and syntactic front end: source text to tokens, tokens to a syntax tree.

pub mod ast;
pub mod error;
pub mod grammar;
pub mod laws;
pub mod number;
pub mod parser;
pub mod text;
pub mod token;
pub mod tokenizer;

pub use ast::{BinaryOp, Expression, Program, ProgramObject, Statement, Type};
pub use error::{Expected, Found, LexError, ParseError};
pub use number::Number;
pub use parser::Parser;
pub use token::{Lexeme, Token, TokenKind};
