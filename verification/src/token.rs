//! Tokens: the lexical units of the language.

use crate::text::same_text;
use vstd::prelude::*;
use vstd::std_specs::cmp::PartialEqSpecImpl;

verus! {

/// What a token is, without the text it may carry.
#[derive(Clone, Copy, Debug, PartialEq, Eq, Structural)]
pub enum TokenKind {
    EOF,
    Let,
    Mut,
    Return,
    FnArrow,
    If,
    Else,
    While,
    For,
    Function,
    Module,
    Struct,
    Enum,
    Assign,
    FnPipe,
    TypeDecl,
    RetType,
    PatternMatch,
    Wildcard,
    LParen,
    RParen,
    LBrace,
    RBrace,
    LBracket,
    RBracket,
    ArgumentSeparator,
    StatementEnd,
    FieldAccessor,
    Identifier,
    Number,
    StringLiteral,
    CharLiteral,
    BoolLiteral,
    Operator,
}

/// One lexical unit. Identifiers, literals and operators carry the stretch
/// of source text they were read from; the token borrows it from the source.
#[derive(Clone, Copy, Debug)]
pub enum Token<'a> {
    /// Marks the end of every token sequence the tokenizer produces.
    EOF,
    /// `let`
    Let,
    /// `mut`
    Mut,
    /// `ret`
    Return,
    /// `=>`
    FnArrow,
    /// `if`
    If,
    /// `else`
    Else,
    /// `while`
    While,
    /// `for`
    For,
    /// `fn`
    Function,
    /// `mod`
    Module,
    /// `struct`
    Struct,
    /// `enum`
    Enum,
    /// `<-`
    Assign,
    /// `|>`
    FnPipe,
    /// `|`
    TypeDecl,
    /// `->`
    RetType,
    /// `@`
    PatternMatch,
    /// `~`
    Wildcard,
    /// `(`
    LParen,
    /// `)`
    RParen,
    /// `{`
    LBrace,
    /// `}`
    RBrace,
    /// `[`
    LBracket,
    /// `]`
    RBracket,
    /// `,`
    ArgumentSeparator,
    /// `;`
    StatementEnd,
    /// `.`
    FieldAccessor,
    Identifier(&'a str),
    Number(&'a str),
    /// The text includes the enclosing double quotes.
    StringLiteral(&'a str),
    /// The text includes the enclosing single quotes.
    CharLiteral(&'a str),
    BoolLiteral(&'a str),
    Operator(&'a str),
}

/// The mathematical value of a token: its kind and the text it carries
/// (empty for the kinds that carry none).
pub struct Lexeme {
    pub kind: TokenKind,
    pub text: Seq<char>,
}

/// Whether tokens of this kind carry text.
pub open spec fn carries_text(kind: TokenKind) -> bool {
    kind == TokenKind::Identifier || kind == TokenKind::Number || kind == TokenKind::StringLiteral
        || kind == TokenKind::CharLiteral || kind == TokenKind::BoolLiteral || kind
        == TokenKind::Operator
}

/// The lexeme of a token that carries no text.
pub open spec fn plain(kind: TokenKind) -> Lexeme {
    Lexeme { kind, text: Seq::empty() }
}

/// The lexeme of a token that carries `text`.
pub open spec fn with_text(kind: TokenKind, text: Seq<char>) -> Lexeme {
    Lexeme { kind, text }
}

impl<'a> Token<'a> {
    pub open spec fn spec_kind(&self) -> TokenKind {
        match *self {
            Token::EOF => TokenKind::EOF,
            Token::Let => TokenKind::Let,
            Token::Mut => TokenKind::Mut,
            Token::Return => TokenKind::Return,
            Token::FnArrow => TokenKind::FnArrow,
            Token::If => TokenKind::If,
            Token::Else => TokenKind::Else,
            Token::While => TokenKind::While,
            Token::For => TokenKind::For,
            Token::Function => TokenKind::Function,
            Token::Module => TokenKind::Module,
            Token::Struct => TokenKind::Struct,
            Token::Enum => TokenKind::Enum,
            Token::Assign => TokenKind::Assign,
            Token::FnPipe => TokenKind::FnPipe,
            Token::TypeDecl => TokenKind::TypeDecl,
            Token::RetType => TokenKind::RetType,
            Token::PatternMatch => TokenKind::PatternMatch,
            Token::Wildcard => TokenKind::Wildcard,
            Token::LParen => TokenKind::LParen,
            Token::RParen => TokenKind::RParen,
            Token::LBrace => TokenKind::LBrace,
            Token::RBrace => TokenKind::RBrace,
            Token::LBracket => TokenKind::LBracket,
            Token::RBracket => TokenKind::RBracket,
            Token::ArgumentSeparator => TokenKind::ArgumentSeparator,
            Token::StatementEnd => TokenKind::StatementEnd,
            Token::FieldAccessor => TokenKind::FieldAccessor,
            Token::Identifier(_) => TokenKind::Identifier,
            Token::Number(_) => TokenKind::Number,
            Token::StringLiteral(_) => TokenKind::StringLiteral,
            Token::CharLiteral(_) => TokenKind::CharLiteral,
            Token::BoolLiteral(_) => TokenKind::BoolLiteral,
            Token::Operator(_) => TokenKind::Operator,
        }
    }

    pub open spec fn spec_text(&self) -> Seq<char> {
        match *self {
            Token::Identifier(s) => s@,
            Token::Number(s) => s@,
            Token::StringLiteral(s) => s@,
            Token::CharLiteral(s) => s@,
            Token::BoolLiteral(s) => s@,
            Token::Operator(s) => s@,
            _ => Seq::empty(),
        }
    }

    /// The kind of this token.
    #[verifier::when_used_as_spec(spec_kind)]
    pub fn kind(&self) -> (kind: TokenKind)
        ensures
            kind == self.spec_kind(),
            kind == self@.kind,
    {
        match *self {
            Token::EOF => TokenKind::EOF,
            Token::Let => TokenKind::Let,
            Token::Mut => TokenKind::Mut,
            Token::Return => TokenKind::Return,
            Token::FnArrow => TokenKind::FnArrow,
            Token::If => TokenKind::If,
            Token::Else => TokenKind::Else,
            Token::While => TokenKind::While,
            Token::For => TokenKind::For,
            Token::Function => TokenKind::Function,
            Token::Module => TokenKind::Module,
            Token::Struct => TokenKind::Struct,
            Token::Enum => TokenKind::Enum,
            Token::Assign => TokenKind::Assign,
            Token::FnPipe => TokenKind::FnPipe,
            Token::TypeDecl => TokenKind::TypeDecl,
            Token::RetType => TokenKind::RetType,
            Token::PatternMatch => TokenKind::PatternMatch,
            Token::Wildcard => TokenKind::Wildcard,
            Token::LParen => TokenKind::LParen,
            Token::RParen => TokenKind::RParen,
            Token::LBrace => TokenKind::LBrace,
            Token::RBrace => TokenKind::RBrace,
            Token::LBracket => TokenKind::LBracket,
            Token::RBracket => TokenKind::RBracket,
            Token::ArgumentSeparator => TokenKind::ArgumentSeparator,
            Token::StatementEnd => TokenKind::StatementEnd,
            Token::FieldAccessor => TokenKind::FieldAccessor,
            Token::Identifier(_) => TokenKind::Identifier,
            Token::Number(_) => TokenKind::Number,
            Token::StringLiteral(_) => TokenKind::StringLiteral,
            Token::CharLiteral(_) => TokenKind::CharLiteral,
            Token::BoolLiteral(_) => TokenKind::BoolLiteral,
            Token::Operator(_) => TokenKind::Operator,
        }
    }

    /// The text this token carries, if its kind carries any.
    pub fn text(&self) -> (text: Option<&'a str>)
        ensures
            text.is_some() == carries_text(self@.kind),
            text.is_some() ==> text.unwrap()@ == self@.text,
            text.is_none() ==> self@.text == Seq::<char>::empty(),
    {
        match *self {
            Token::Identifier(s) => Some(s),
            Token::Number(s) => Some(s),
            Token::StringLiteral(s) => Some(s),
            Token::CharLiteral(s) => Some(s),
            Token::BoolLiteral(s) => Some(s),
            Token::Operator(s) => Some(s),
            _ => None,
        }
    }
}

impl<'a> View for Token<'a> {
    type V = Lexeme;

    open spec fn view(&self) -> Lexeme {
        Lexeme { kind: self.spec_kind(), text: self.spec_text() }
    }
}

/// Two tokens are equal when they are of one kind and carry the same text.
impl<'a> PartialEq for Token<'a> {
    fn eq(&self, other: &Token<'a>) -> (equal: bool) {
        if self.kind() != other.kind() {
            return false;
        }
        match (self.text(), other.text()) {
            (Some(a), Some(b)) => same_text(a, b),
            _ => true,
        }
    }
}

impl<'a> PartialEqSpecImpl for Token<'a> {
    open spec fn obeys_eq_spec() -> bool {
        true
    }

    open spec fn eq_spec(&self, other: &Token<'a>) -> bool {
        self@ == other@
    }
}

/// The lexemes of a sequence of tokens, one for one.
pub open spec fn lexemes<'a>(tokens: Seq<Token<'a>>) -> Seq<Lexeme> {
    tokens.map_values(|t: Token<'a>| t@)
}

} // verus!
