//! The parser: a cursor over a token sequence, with one method for each
//! rule of the grammar. A method either commits to what it reads or fails
//! the whole construct; nothing is read twice.

use crate::ast::{
    expression_views, lemma_call_view, object_views, optional_type_view, parameter_views,
    statement_views, BinaryOp, Expression, ExpressionView, Program, ProgramObject, Statement,
    StatementView, Type, TypeView,
};
use crate::error::{Expected, Found, ParseError};
use crate::grammar;
use crate::number::{parse_number, Number};
use crate::text::same_text;
use crate::token::{lexemes, Lexeme, Token, TokenKind};
use vstd::prelude::*;

verus! {

/// A token sequence and the index of the next token that has not been consumed.
#[derive(Debug)]
pub struct Parser<'a> {
    tokens: Vec<Token<'a>>,
    current: usize,
}

/// What it means for a result to be the expected one.
pub open spec fn gives<T: View>(r: Result<T, ParseError>, expected: Result<T::V, ParseError>) -> bool {
    match expected {
        Ok(value) => r matches Ok(x) && x@ == value,
        Err(error) => r matches Err(e) && e == error,
    }
}

/// The lexeme of a token that may be missing.
pub open spec fn lexeme_of<'a>(token: Option<Token<'a>>) -> Option<Lexeme> {
    match token {
        Some(t) => Some(t@),
        None => None,
    }
}

/// Whether `after` is `before` with the cursor moved `taken` tokens on,
/// which never takes it past the end of the tokens.
pub open spec fn moved<'a>(before: Parser<'a>, after: Parser<'a>, taken: nat) -> bool {
    &&& after.input() == before.input()
    &&& after.position() == before.position() + taken
    &&& after.position() <= after.input().len()
}

fn mismatch<'a>(expected: Expected, found: Option<Token<'a>>) -> (error: ParseError)
    ensures
        error == grammar::mismatch(expected, lexeme_of(found)),
{
    match found {
        Some(token) => ParseError { expected, found: Found::Token(token.kind()) },
        None => ParseError { expected, found: Found::EndOfTokens },
    }
}

/// The type a name stands for.
pub fn type_from_name(name: &str) -> (t: Type)
    ensures
        t@ == grammar::type_of_name(name@),
{
    if same_text(name, "i32") {
        Type::I32
    } else if same_text(name, "i64") {
        Type::I64
    } else if same_text(name, "u32") {
        Type::U32
    } else if same_text(name, "u64") {
        Type::U64
    } else if same_text(name, "f32") {
        Type::F32
    } else if same_text(name, "f64") {
        Type::F64
    } else if same_text(name, "bool") {
        Type::BOOL
    } else if same_text(name, "char") {
        Type::CHAR
    } else if same_text(name, "string") {
        Type::STRING
    } else {
        Type::Custom(name.to_owned())
    }
}

/// The arithmetic operator a token stands for, if it stands for one.
pub fn token_to_bin_op(tok: &Token) -> (op: Option<BinaryOp>)
    ensures
        op == grammar::bin_op_of_token(tok@),
{
    match *tok {
        Token::Operator(symbol) => {
            if same_text(symbol, "+") {
                Some(BinaryOp::Add)
            } else if same_text(symbol, "-") {
                Some(BinaryOp::Sub)
            } else if same_text(symbol, "/") {
                Some(BinaryOp::Div)
            } else if same_text(symbol, "*") {
                Some(BinaryOp::Mul)
            } else {
                None
            }
        },
        _ => None,
    }
}

/// Reads one expression from the start of `tokens`, whatever follows it.
pub fn evaluate_expression_from_tokens<'a>(tokens: Vec<Token<'a>>) -> (r: Result<
    Expression,
    ParseError,
>)
    ensures
        gives(r, grammar::expression(lexemes(tokens@), 0).value),
    decreases tokens@.len(), tokens@.len() + 1, 0int,
{
    let mut parser = Parser::new(tokens);
    parser.parse_expression()
}

impl<'a> Parser<'a> {
    #[verifier::type_invariant]
    spec fn cursor_in_bounds(&self) -> bool {
        self.current <= self.tokens.len()
    }

    /// The tokens this parser reads.
    pub closed spec fn input(&self) -> Seq<Lexeme> {
        lexemes(self.tokens@)
    }

    /// The index of the next token that has not been consumed.
    pub closed spec fn position(&self) -> nat {
        self.current as nat
    }

    /// A parser at the start of `tokens`.
    pub fn new(tokens: Vec<Token<'a>>) -> (parser: Parser<'a>)
        ensures
            parser.input() == lexemes(tokens@),
            parser.position() == 0,
            parser.position() <= parser.input().len(),
    {
        Parser { tokens, current: 0 }
    }

    /// The token at the cursor, if the cursor is not at the end.
    pub fn peek(&self) -> (token: Option<Token<'a>>)
        ensures
            lexeme_of(token) == grammar::peek(self.input(), self.position() as int),
    {
        if self.current < self.tokens.len() {
            Some(self.tokens[self.current])
        } else {
            None
        }
    }

    /// The token at the cursor, which then moves past it; nothing at the
    /// end, where the cursor stays.
    pub fn advance(&mut self) -> (token: Option<Token<'a>>)
        ensures
            lexeme_of(token) == grammar::peek(old(self).input(), old(self).position() as int),
            moved(
                *old(self),
                *final(self),
                grammar::advance_by(old(self).input(), old(self).position() as int),
            ),
    {
        proof {
            use_type_invariant(&*self);
        }
        if self.current < self.tokens.len() {
            let token = self.tokens[self.current];
            self.current += 1;
            Some(token)
        } else {
            None
        }
    }

    /// Whether the cursor is at the end of the tokens.
    pub fn is_end(&self) -> (at_end: bool)
        ensures
            at_end == (self.position() >= self.input().len()),
    {
        self.current >= self.tokens.len()
    }

    /// Whether a token of `kind` stands at the cursor.
    fn at_kind(&self, kind: TokenKind) -> (b: bool)
        ensures
            b == grammar::is_at(self.input(), self.position() as int, kind),
    {
        self.current < self.tokens.len() && self.tokens[self.current].kind() == kind
    }

    /// Checks that the token at the cursor is `tok`, without consuming it.
    pub fn expect(&self, tok: Token<'a>) -> (r: Result<Token<'a>, ParseError>)
        ensures
            gives(r, grammar::expect(self.input(), self.position() as int, tok@)),
    {
        let found = self.peek();
        match found {
            Some(token) => {
                if token == tok {
                    Ok(token)
                } else {
                    Err(mismatch(Expected::Token(tok.kind()), found))
                }
            },
            None => Err(mismatch(Expected::Token(tok.kind()), found)),
        }
    }

    /// Checks that the token at the cursor is `tok`, and moves past it if it
    /// is. Where it is not, the cursor stays.
    pub fn expect_and_consume(&mut self, tok: Token<'a>) -> (r: Result<Token<'a>, ParseError>)
        ensures
            gives(
                r,
                grammar::expect_and_consume(
                    old(self).input(),
                    old(self).position() as int,
                    tok@,
                ).value,
            ),
            moved(
                *old(self),
                *final(self),
                grammar::expect_and_consume(
                    old(self).input(),
                    old(self).position() as int,
                    tok@,
                ).taken,
            ),
    {
        proof {
            use_type_invariant(&*self);
        }
        let found = self.peek();
        match found {
            Some(token) => {
                if token == tok {
                    self.current += 1;
                    Ok(token)
                } else {
                    Err(mismatch(Expected::Token(tok.kind()), found))
                }
            },
            None => Err(mismatch(Expected::Token(tok.kind()), found)),
        }
    }

    /// Advances, and returns the text of the token passed, which has to be
    /// an identifier.
    fn identifier(&mut self, role: Expected) -> (r: Result<String, ParseError>)
        ensures
            gives(
                r,
                grammar::identifier(old(self).input(), old(self).position() as int, role).value,
            ),
            moved(
                *old(self),
                *final(self),
                grammar::identifier(old(self).input(), old(self).position() as int, role).taken,
            ),
    {
        let found = self.advance();
        match found {
            Some(Token::Identifier(text)) => Ok(text.to_owned()),
            _ => Err(mismatch(role, found)),
        }
    }

    /// Advances, and returns the type named by the token passed, which has
    /// to be an identifier.
    fn named_type(&mut self) -> (r: Result<Type, ParseError>)
        ensures
            gives(r, grammar::named_type(old(self).input(), old(self).position() as int).value),
            moved(
                *old(self),
                *final(self),
                grammar::named_type(old(self).input(), old(self).position() as int).taken,
            ),
    {
        let found = self.advance();
        match found {
            Some(Token::Identifier(text)) => Ok(type_from_name(text)),
            _ => Err(mismatch(Expected::TypeName, found)),
        }
    }

    /// Reads an expression.
    pub fn parse_expression(&mut self) -> (r: Result<Expression, ParseError>)
        ensures
            gives(r, grammar::expression(old(self).input(), old(self).position() as int).value),
            moved(
                *old(self),
                *final(self),
                grammar::expression(old(self).input(), old(self).position() as int).taken,
            ),
        decreases old(self).input().len(), old(self).input().len() - old(self).position(), 3int,
    {
        self.parse_binary_expr()
    }

    /// Reads an atom: a parenthesized expression, a numeral, a call or a variable.
    pub fn parse_atom(&mut self) -> (r: Result<Expression, ParseError>)
        ensures
            gives(r, grammar::atom(old(self).input(), old(self).position() as int).value),
            moved(
                *old(self),
                *final(self),
                grammar::atom(old(self).input(), old(self).position() as int).taken,
            ),
        decreases old(self).input().len(), old(self).input().len() - old(self).position(), 1int,
    {
        proof {
            use_type_invariant(&*self);
        }
        let found = self.advance();
        match found {
            None => Err(mismatch(Expected::Expression, found)),
            Some(Token::LParen) => self.parse_binary_expr(),
            Some(Token::Number(text)) => {
                match parse_number(text) {
                    Ok(Number::Integer(value)) => Ok(Expression::IntLiteral(value)),
                    Ok(Number::Float) => Ok(Expression::FloatLiteral(text.to_owned())),
                    Err(error) => Err(error),
                }
            },
            Some(Token::Identifier(name)) => {
                if self.at_kind(TokenKind::LParen) {
                    self.parse_function_call(name.to_owned())
                } else {
                    Ok(Expression::Variable(name.to_owned()))
                }
            },
            Some(_) => Err(mismatch(Expected::Expression, found)),
        }
    }

    /// Reads an expression: an atom, or two atoms with an operator between them.
    pub fn parse_binary_expr(&mut self) -> (r: Result<Expression, ParseError>)
        ensures
            gives(r, grammar::expression(old(self).input(), old(self).position() as int).value),
            moved(
                *old(self),
                *final(self),
                grammar::expression(old(self).input(), old(self).position() as int).taken,
            ),
        decreases old(self).input().len(), old(self).input().len() - old(self).position(), 2int,
    {
        proof {
            use_type_invariant(&*self);
        }
        let left = match self.parse_atom() {
            Ok(left) => left,
            Err(error) => {
                return Err(error);
            },
        };
        proof {
            use_type_invariant(&*self);
        }
        if self.is_end() {
            return Ok(left);
        }
        if self.at_kind(TokenKind::RParen) {
            self.current += 1;
        }
        let found = self.peek();
        let token = match found {
            Some(token) => token,
            None => {
                return Ok(left);
            },
        };
        if token.kind() == TokenKind::StatementEnd {
            return Ok(left);
        }
        self.current += 1;
        if token.kind() == TokenKind::RParen {
            return Ok(left);
        }
        let op = match token_to_bin_op(&token) {
            Some(op) => op,
            None => {
                return Err(mismatch(Expected::BinaryOperator, found));
            },
        };
        let right = match self.parse_atom() {
            Ok(right) => right,
            Err(error) => {
                return Err(error);
            },
        };
        proof {
            use_type_invariant(&*self);
        }
        if self.at_kind(TokenKind::RParen) {
            self.current += 1;
        }
        Ok(Expression::Binary { op, left: Box::new(left), right: Box::new(right) })
    }

    /// Reads the call of `name`, from its opening parenthesis to its closing
    /// one. The arguments are split at the commas outside nested
    /// parentheses; each is read by a parser of its own from its tokens alone.
    pub fn parse_function_call(&mut self, name: String) -> (r: Result<Expression, ParseError>)
        ensures
            gives(
                r,
                grammar::function_call(
                    old(self).input(),
                    old(self).position() as int,
                    name@,
                ).value,
            ),
            moved(
                *old(self),
                *final(self),
                grammar::function_call(
                    old(self).input(),
                    old(self).position() as int,
                    name@,
                ).taken,
            ),
        decreases old(self).input().len(), old(self).input().len() - old(self).position(), 0int,
    {
        proof {
            use_type_invariant(&*self);
        }
        match self.expect_and_consume(Token::LParen) {
            Ok(_) => {},
            Err(error) => {
                return Err(error);
            },
        }
        proof {
            use_type_invariant(&*self);
        }
        let ghost input = self.input();
        let ghost call = grammar::function_call(input, old(self).position() as int, name@);
        let start: usize = self.current;
        let mut args: Vec<Expression> = Vec::new();
        if self.at_kind(TokenKind::RParen) {
            self.current += 1;
            proof {
                lemma_call_view(name, args);
                assert(expression_views(args@) =~= Seq::<ExpressionView>::empty());
            }
            return Ok(Expression::FunctionCall { name, args });
        }
        let mut index: usize = start;
        let mut closed: bool = false;
        assert(expression_views(args@) =~= Seq::<ExpressionView>::empty());
        assert(grammar::arguments(input, start as int) == grammar::resumed(
            expression_views(args@),
            0,
            grammar::arguments(input, start as int),
        )) by {
            if let Ok(more) = grammar::arguments(input, start as int).value {
                assert(Seq::<ExpressionView>::empty() + more =~= more);
            }
        }
        while !closed
            invariant
                self.input() == input,
                self.position() == start,
                input == lexemes(self.tokens@),
                input == old(self).input(),
                start == old(self).position() + 1,
                start <= index <= self.tokens.len(),
                0 < start,
                call == grammar::function_call(input, old(self).position() as int, name@),
                call == match grammar::arguments(input, start as int).value {
                    Err(error) => grammar::stop::<ExpressionView>(error, 1),
                    Ok(list) => grammar::finish(
                        ExpressionView::FunctionCall { name: name@, args: list },
                        1 + grammar::arguments(input, start as int).taken,
                    ),
                },
                !closed ==> grammar::arguments(input, start as int) == grammar::resumed(
                    expression_views(args@),
                    (index - start) as nat,
                    grammar::arguments(input, index as int),
                ),
                closed ==> grammar::arguments(input, start as int) == grammar::finish(
                    expression_views(args@),
                    (index - start) as nat,
                ),
            decreases self.tokens.len() - index, if closed { 0int } else { 1int },
        {
            let span_start: usize = index;
            let mut depth: usize = 0;
            let mut span: Vec<Token<'a>> = Vec::new();
            let mut found: bool = false;
            assert(lexemes(span@) =~= input.subrange(span_start as int, index as int));
            while !found && index < self.tokens.len()
                invariant
                    input == lexemes(self.tokens@),
                    span_start <= index <= self.tokens.len(),
                    depth <= index - span_start,
                    lexemes(span@) == input.subrange(span_start as int, index as int),
                    grammar::span_len(input, span_start as int, 0) == (index - span_start)
                        + grammar::span_len(input, index as int, depth as nat),
                    found ==> index < self.tokens.len() && grammar::span_len(
                        input,
                        index as int,
                        depth as nat,
                    ) == 0,
                decreases self.tokens.len() - index, if found { 0int } else { 1int },
            {
                let tok = self.tokens[index];
                let kind = tok.kind();
                if kind == TokenKind::RParen && depth == 0 {
                    found = true;
                } else if kind == TokenKind::ArgumentSeparator && depth == 0 {
                    found = true;
                } else {
                    if kind == TokenKind::LParen {
                        depth += 1;
                    } else if kind == TokenKind::RParen {
                        depth -= 1;
                    }
                    let ghost before = lexemes(span@);
                    span.push(tok);
                    index += 1;
                    assert(lexemes(span@) =~= before.push(tok@));
                    assert(lexemes(span@) =~= input.subrange(span_start as int, index as int));
                }
            }
            if !found {
                return Err(mismatch(Expected::Token(TokenKind::RParen), None));
            }
            let argument = match evaluate_expression_from_tokens(span) {
                Ok(argument) => argument,
                Err(error) => {
                    return Err(error);
                },
            };
            let ghost read = expression_views(args@);
            let ghost since = (span_start - start) as nat;
            args.push(argument);
            assert(expression_views(args@) =~= read.push(argument@));
            closed = self.tokens[index].kind() == TokenKind::RParen;
            index += 1;
            proof {
                let taken = (index - span_start) as nat;
                if closed {
                    assert(read + seq![argument@] =~= read.push(argument@));
                } else {
                    grammar::lemma_resumed(
                        read,
                        since,
                        argument@,
                        taken,
                        grammar::arguments(input, index as int),
                    );
                }
            }
        }
        self.current = index;
        proof {
            lemma_call_view(name, args);
        }
        Ok(Expression::FunctionCall { name, args })
    }
    /// Reads the rest of a statement that started with `ret`.
    pub fn parse_ret_statement(&mut self) -> (r: Result<Statement, ParseError>)
        ensures
            gives(
                r,
                grammar::ret_statement(old(self).input(), old(self).position() as int).value,
            ),
            moved(
                *old(self),
                *final(self),
                grammar::ret_statement(old(self).input(), old(self).position() as int).taken,
            ),
    {
        proof {
            reveal(grammar::ret_statement);
        }
        let value = match self.parse_expression() {
            Ok(value) => value,
            Err(error) => {
                return Err(error);
            },
        };
        match self.expect_and_consume(Token::StatementEnd) {
            Ok(_) => Ok(Statement::Ret { value }),
            Err(error) => Err(error),
        }
    }

    /// Reads the rest of a statement that started with `let`.
    pub fn parse_let_statement(&mut self) -> (r: Result<Statement, ParseError>)
        ensures
            gives(
                r,
                grammar::let_statement(old(self).input(), old(self).position() as int).value,
            ),
            moved(
                *old(self),
                *final(self),
                grammar::let_statement(old(self).input(), old(self).position() as int).taken,
            ),
    {
        proof {
            reveal(grammar::let_statement);
        }
        let name = match self.identifier(Expected::VariableName) {
            Ok(name) => name,
            Err(error) => {
                return Err(error);
            },
        };
        match self.expect_and_consume(Token::TypeDecl) {
            Ok(_) => {},
            Err(error) => {
                return Err(error);
            },
        }
        let type_annotation = match self.named_type() {
            Ok(type_annotation) => type_annotation,
            Err(error) => {
                return Err(error);
            },
        };
        match self.expect_and_consume(Token::Assign) {
            Ok(_) => {},
            Err(error) => {
                return Err(error);
            },
        }
        let value = match self.parse_expression() {
            Ok(value) => value,
            Err(error) => {
                return Err(error);
            },
        };
        match self.expect_and_consume(Token::StatementEnd) {
            Ok(_) => Ok(Statement::Let { name, type_annotation, value }),
            Err(error) => Err(error),
        }
    }

    /// Reads the rest of a call statement: the call of `name` and a semicolon.
    fn parse_call_statement(&mut self, name: String) -> (r: Result<Statement, ParseError>)
        ensures
            gives(
                r,
                grammar::call_statement(
                    old(self).input(),
                    old(self).position() as int,
                    name@,
                ).value,
            ),
            moved(
                *old(self),
                *final(self),
                grammar::call_statement(
                    old(self).input(),
                    old(self).position() as int,
                    name@,
                ).taken,
            ),
    {
        proof {
            reveal(grammar::call_statement);
        }
        let call = match self.parse_function_call(name) {
            Ok(call) => call,
            Err(error) => {
                return Err(error);
            },
        };
        match self.expect_and_consume(Token::StatementEnd) {
            Ok(_) => Ok(Statement::FunctionCall { call }),
            Err(error) => Err(error),
        }
    }

    /// Reads the rest of an assignment to `name`: an arrow, an expression
    /// and a semicolon.
    fn parse_assignment(&mut self, name: String) -> (r: Result<Statement, ParseError>)
        ensures
            gives(
                r,
                grammar::assignment(old(self).input(), old(self).position() as int, name@).value,
            ),
            moved(
                *old(self),
                *final(self),
                grammar::assignment(old(self).input(), old(self).position() as int, name@).taken,
            ),
    {
        proof {
            reveal(grammar::assignment);
        }
        match self.expect_and_consume(Token::Assign) {
            Ok(_) => {},
            Err(error) => {
                return Err(error);
            },
        }
        let new_value = match self.parse_expression() {
            Ok(new_value) => new_value,
            Err(error) => {
                return Err(error);
            },
        };
        match self.expect_and_consume(Token::StatementEnd) {
            Ok(_) => Ok(Statement::Assign { name, new_value }),
            Err(error) => Err(error),
        }
    }

    /// Reads the rest of a statement that started with the identifier
    /// `name`: a call where an opening parenthesis follows, an assignment
    /// otherwise.
    pub fn parse_identifier_statement(&mut self, name: String) -> (r: Result<
        Statement,
        ParseError,
    >)
        ensures
            gives(
                r,
                grammar::identifier_statement(
                    old(self).input(),
                    old(self).position() as int,
                    name@,
                ).value,
            ),
            moved(
                *old(self),
                *final(self),
                grammar::identifier_statement(
                    old(self).input(),
                    old(self).position() as int,
                    name@,
                ).taken,
            ),
    {
        proof {
            reveal(grammar::identifier_statement);
            use_type_invariant(&*self);
        }
        if self.is_end() {
            return Err(mismatch(Expected::Token(TokenKind::Assign), None));
        }
        if self.at_kind(TokenKind::LParen) {
            self.parse_call_statement(name)
        } else {
            self.parse_assignment(name)
        }
    }

    /// Reads one statement. Its first token decides which.
    pub fn parse_statement(&mut self) -> (r: Result<Statement, ParseError>)
        ensures
            gives(r, grammar::statement(old(self).input(), old(self).position() as int).value),
            moved(
                *old(self),
                *final(self),
                grammar::statement(old(self).input(), old(self).position() as int).taken,
            ),
    {
        proof {
            reveal(grammar::statement);
        }
        let found = self.advance();
        match found {
            Some(Token::Let) => self.parse_let_statement(),
            Some(Token::Return) => self.parse_ret_statement(),
            Some(Token::Identifier(name)) => self.parse_identifier_statement(name.to_owned()),
            _ => Err(mismatch(Expected::Statement, found)),
        }
    }

    /// Reads the statements of a body, up to and with its closing brace.
    pub fn parse_statements(&mut self) -> (r: Result<Vec<Statement>, ParseError>)
        ensures
            match grammar::statements(old(self).input(), old(self).position() as int).value {
                Ok(expected) => r matches Ok(body) && statement_views(body@) == expected,
                Err(error) => r matches Err(e) && e == error,
            },
            moved(
                *old(self),
                *final(self),
                grammar::statements(old(self).input(), old(self).position() as int).taken,
            ),
    {
        let ghost input = self.input();
        let ghost start = self.position();
        let mut statements: Vec<Statement> = Vec::new();
        assert(statement_views(statements@) =~= Seq::<StatementView>::empty());
        assert(grammar::statements(input, start as int) == grammar::continued(
            statement_views(statements@),
            0,
            grammar::statements(input, start as int),
        )) by {
            if let Ok(more) = grammar::statements(input, start as int).value {
                assert(Seq::<StatementView>::empty() + more =~= more);
            }
        }
        loop
            invariant
                self.input() == input,
                input == old(self).input(),
                start == old(self).position(),
                start <= self.position(),
                grammar::statements(input, start as int) == grammar::continued(
                    statement_views(statements@),
                    (self.position() - start) as nat,
                    grammar::statements(input, self.position() as int),
                ),
            decreases grammar::remaining(input, self.position() as int),
        {
            proof {
                use_type_invariant(&*self);
            }
            let found = self.peek();
            match found {
                None => {
                    return Err(mismatch(Expected::Token(TokenKind::RBrace), found));
                },
                Some(Token::RBrace) => {
                    self.current += 1;
                    assert(statement_views(statements@) + Seq::<StatementView>::empty()
                        =~= statement_views(statements@));
                    return Ok(statements);
                },
                Some(Token::EOF) => {
                    return Err(mismatch(Expected::Token(TokenKind::RBrace), found));
                },
                Some(_) => {
                    let ghost read = statement_views(statements@);
                    let ghost at = self.position();
                    proof {
                        grammar::lemma_statement_advances(input, at as int);
                    }
                    let statement = match self.parse_statement() {
                        Ok(statement) => statement,
                        Err(error) => {
                            return Err(error);
                        },
                    };
                    statements.push(statement);
                    proof {
                        use_type_invariant(&*self);
                        assert(statement_views(statements@) =~= read.push(statement@));
                        let taken = grammar::statement(input, at as int).taken;
                        grammar::lemma_continued(
                            read,
                            (at - start) as nat,
                            statement@,
                            taken,
                            grammar::statements(input, (at + taken) as int),
                        );
                    }
                },
            }
        }
    }

    /// Reads the head of a function declaration: its name, its parameters
    /// and its return type, if it names one.
    fn parse_signature(&mut self) -> (r: Result<
        (String, Vec<(String, Type)>, Option<Type>),
        ParseError,
    >)
        ensures
            match grammar::signature(old(self).input(), old(self).position() as int).value {
                Ok(expected) => r matches Ok((name, arguments, return_type)) && name@
                    == expected.name && parameter_views(arguments@) == expected.arguments
                    && optional_type_view(return_type) == expected.return_type,
                Err(error) => r matches Err(e) && e == error,
            },
            moved(
                *old(self),
                *final(self),
                grammar::signature(old(self).input(), old(self).position() as int).taken,
            ),
    {
        proof {
            reveal(grammar::signature);
        }
        match self.expect_and_consume(Token::Function) {
            Ok(_) => {},
            Err(error) => {
                return Err(error);
            },
        }
        let name = match self.identifier(Expected::FunctionName) {
            Ok(name) => name,
            Err(error) => {
                return Err(error);
            },
        };
        match self.expect_and_consume(Token::LParen) {
            Ok(_) => {},
            Err(error) => {
                return Err(error);
            },
        }
        let arguments = match self.parse_parameters() {
            Ok(arguments) => arguments,
            Err(error) => {
                return Err(error);
            },
        };
        match self.expect_and_consume(Token::RParen) {
            Ok(_) => {},
            Err(error) => {
                return Err(error);
            },
        }
        match self.parse_return_type() {
            Ok(return_type) => Ok((name, arguments, return_type)),
            Err(error) => Err(error),
        }
    }

    /// Reads the return type of a function, where an arrow announces one.
    fn parse_return_type(&mut self) -> (r: Result<Option<Type>, ParseError>)
        ensures
            match grammar::return_type(old(self).input(), old(self).position() as int).value {
                Ok(expected) => r matches Ok(t) && optional_type_view(t) == expected,
                Err(error) => r matches Err(e) && e == error,
            },
            moved(
                *old(self),
                *final(self),
                grammar::return_type(old(self).input(), old(self).position() as int).taken,
            ),
    {
        proof {
            reveal(grammar::return_type);
            use_type_invariant(&*self);
        }
        if self.at_kind(TokenKind::RetType) {
            self.current += 1;
            match self.named_type() {
                Ok(named) => Ok(Some(named)),
                Err(error) => Err(error),
            }
        } else {
            Ok(None)
        }
    }

    /// Reads a function declaration, from its `fn` to the brace that closes its body.
    pub fn parse_function(&mut self) -> (r: Result<ProgramObject, ParseError>)
        ensures
            gives(r, grammar::function(old(self).input(), old(self).position() as int).value),
            moved(
                *old(self),
                *final(self),
                grammar::function(old(self).input(), old(self).position() as int).taken,
            ),
    {
        proof {
            reveal(grammar::function);
        }
        let (name, arguments, return_type) = match self.parse_signature() {
            Ok(signature) => signature,
            Err(error) => {
                return Err(error);
            },
        };
        match self.expect_and_consume(Token::LBrace) {
            Ok(_) => {},
            Err(error) => {
                return Err(error);
            },
        }
        match self.parse_statements() {
            Ok(statements) => Ok(ProgramObject::Function { name, arguments, return_type, statements }),
            Err(error) => Err(error),
        }
    }

    /// Reads one parameter: a label, a bar and a type.
    fn parse_parameter(&mut self) -> (r: Result<(String, Type), ParseError>)
        ensures
            match grammar::parameter(old(self).input(), old(self).position() as int).value {
                Ok(expected) => r matches Ok((label, type_annotation)) && label@ == expected.0
                    && type_annotation@ == expected.1,
                Err(error) => r matches Err(e) && e == error,
            },
            moved(
                *old(self),
                *final(self),
                grammar::parameter(old(self).input(), old(self).position() as int).taken,
            ),
    {
        proof {
            reveal(grammar::parameter);
        }
        let label = match self.identifier(Expected::ParameterName) {
            Ok(label) => label,
            Err(error) => {
                return Err(error);
            },
        };
        match self.expect_and_consume(Token::TypeDecl) {
            Ok(_) => {},
            Err(error) => {
                return Err(error);
            },
        }
        match self.named_type() {
            Ok(type_annotation) => Ok((label, type_annotation)),
            Err(error) => Err(error),
        }
    }

    /// Reads the parameters of a function, from behind the opening
    /// parenthesis up to but without the closing one.
    fn parse_parameters(&mut self) -> (r: Result<Vec<(String, Type)>, ParseError>)
        ensures
            match grammar::parameter_list(old(self).input(), old(self).position() as int).value {
                Ok(expected) => r matches Ok(list) && parameter_views(list@) == expected,
                Err(error) => r matches Err(e) && e == error,
            },
            moved(
                *old(self),
                *final(self),
                grammar::parameter_list(old(self).input(), old(self).position() as int).taken,
            ),
    {
        proof {
            reveal(grammar::parameter_list);
            use_type_invariant(&*self);
        }
        let ghost input = self.input();
        let ghost start = self.position();
        let mut args: Vec<(String, Type)> = Vec::new();
        assert(parameter_views(args@) =~= Seq::<(Seq<char>, TypeView)>::empty());
        if self.at_kind(TokenKind::RParen) {
            return Ok(args);
        }
        assert(grammar::parameters(input, start as int) == grammar::continued(
            parameter_views(args@),
            0,
            grammar::parameters(input, start as int),
        )) by {
            if let Ok(more) = grammar::parameters(input, start as int).value {
                assert(Seq::<(Seq<char>, TypeView)>::empty() + more =~= more);
            }
        }
        loop
            invariant
                self.input() == input,
                input == old(self).input(),
                start == old(self).position(),
                start <= self.position(),
                grammar::parameter_list(input, start as int) == grammar::parameters(
                    input,
                    start as int,
                ),
                grammar::parameters(input, start as int) == grammar::continued(
                    parameter_views(args@),
                    (self.position() - start) as nat,
                    grammar::parameters(input, self.position() as int),
                ),
            decreases grammar::remaining(input, self.position() as int),
        {
            let ghost at = self.position();
            let ghost read = parameter_views(args@);
            proof {
                grammar::lemma_parameter_spans_three(input, at as int);
            }
            let (label, type_annotation) = match self.parse_parameter() {
                Ok(parameter) => parameter,
                Err(error) => {
                    return Err(error);
                },
            };
            let ghost parameter = (label@, type_annotation@);
            args.push((label, type_annotation));
            assert(parameter_views(args@) =~= read.push(parameter));
            if self.at_kind(TokenKind::RParen) {
                assert(read + seq![parameter] =~= read.push(parameter));
                return Ok(args);
            }
            match self.expect_and_consume(Token::ArgumentSeparator) {
                Ok(_) => {},
                Err(error) => {
                    return Err(error);
                },
            }
            proof {
                use_type_invariant(&*self);
                grammar::lemma_continued(
                    read,
                    (at - start) as nat,
                    parameter,
                    4,
                    grammar::parameters(input, (at + 4) as int),
                );
            }
        }
    }

    /// Reads one top-level object. Nothing is consumed unless it starts like one.
    pub fn parse_object(&mut self) -> (r: Result<ProgramObject, ParseError>)
        ensures
            gives(r, grammar::object(old(self).input(), old(self).position() as int).value),
            moved(
                *old(self),
                *final(self),
                grammar::object(old(self).input(), old(self).position() as int).taken,
            ),
    {
        proof {
            reveal(grammar::object);
            use_type_invariant(&*self);
        }
        let found = self.peek();
        match found {
            Some(Token::Function) => self.parse_function(),
            _ => Err(mismatch(Expected::ProgramObject, found)),
        }
    }

    /// Reads a program: as many objects as can be read one after the
    /// other. An object that cannot be read ends the program; the error is
    /// dropped, so the result is never an error.
    pub fn parse(&mut self) -> (r: Result<Program, ParseError>)
        ensures
            r matches Ok(program) && program@ == grammar::program(
                old(self).input(),
                old(self).position() as int,
            ).0,
            moved(
                *old(self),
                *final(self),
                grammar::program(old(self).input(), old(self).position() as int).1,
            ),
    {
        let ghost input = self.input();
        let ghost start = self.position();
        let mut objs: Vec<ProgramObject> = Vec::new();
        assert(object_views(objs@) + grammar::program(input, start as int).0
            =~= grammar::program(input, start as int).0);
        loop
            invariant
                self.input() == input,
                input == old(self).input(),
                start == old(self).position(),
                start <= self.position(),
                grammar::program(input, start as int).0 == object_views(objs@) + grammar::program(
                    input,
                    self.position() as int,
                ).0,
                grammar::program(input, start as int).1 == (self.position() - start)
                    + grammar::program(input, self.position() as int).1,
            decreases grammar::remaining(input, self.position() as int),
        {
            let ghost at = self.position();
            let ghost read = object_views(objs@);
            proof {
                grammar::lemma_object_advances(input, at as int);
            }
            match self.parse_object() {
                Ok(obj) => {
                    objs.push(obj);
                    proof {
                        use_type_invariant(&*self);
                        assert(object_views(objs@) =~= read.push(obj@));
                        let rest = grammar::program(input, self.position() as int).0;
                        assert(read + (seq![obj@] + rest) =~= read.push(obj@) + rest);
                    }
                },
                Err(_) => {
                    assert(object_views(objs@) + Seq::<crate::ast::ProgramObjectView>::empty()
                        =~= object_views(objs@));
                    return Ok(Program { objs });
                },
            }
        }
    }
}

} // verus!
