//! The grammar, as functions from a token sequence and a position to what
//! is read there. They say what the parser returns and how far it moves.
//!
//! ```text
//! Program    := Object*
//! Object     := Function
//! Function   := "fn" Identifier "(" Params? ")" ("->" Identifier)? "{" Statement* "}"
//! Params     := Param ("," Param)*
//! Param      := Identifier "|" Identifier
//! Statement  := "let" Identifier "|" Identifier "<-" Expression ";"
//!             | "ret" Expression ";"
//!             | Identifier "(" Args? ")" ";"
//!             | Identifier "<-" Expression ";"
//! Args       := Expression ("," Expression)*
//! Expression := Atom ")"? (Operator Atom ")"?)?
//! Atom       := "(" Expression | Number | Identifier "(" Args? ")" | Identifier
//! ```
//!
//! An expression holds at most one operator: there is no precedence and no
//! chaining. A parenthesis that opens an atom is not matched against the one
//! that closes it; a closing parenthesis is taken along wherever one follows
//! an atom.

use crate::ast::{BinaryOp, ExpressionView, ProgramObjectView, StatementView, TypeView};
use crate::error::{ran_out, unexpected, Expected, ParseError};
use crate::number::{bad_numeral, classify, Number};
use crate::token::{plain, Lexeme, TokenKind};
use vstd::prelude::*;

verus! {

/// What one step of parsing comes to: a value or the error that stopped it,
/// and the number of tokens the cursor moved over either way.
pub struct Step<T> {
    pub value: Result<T, ParseError>,
    pub taken: nat,
}

pub open spec fn finish<T>(value: T, taken: nat) -> Step<T> {
    Step { value: Ok(value), taken }
}

pub open spec fn stop<T>(error: ParseError, taken: nat) -> Step<T> {
    Step { value: Err(error), taken }
}

/// `step`, with `before` more tokens counted in front of it.
pub open spec fn shift<T>(step: Step<T>, before: nat) -> Step<T> {
    Step { value: step.value, taken: before + step.taken }
}

/// `first` followed by what `rest` read, or the error that stopped `rest`.
pub open spec fn prepend<T>(first: T, rest: Step<Seq<T>>) -> Step<Seq<T>> {
    Step {
        value: match rest.value {
            Ok(more) => Ok(seq![first] + more),
            Err(error) => Err(error),
        },
        taken: rest.taken,
    }
}

/// `read`, taken from `before` tokens, followed by what `rest` read; or
/// the error that stopped `rest`, with the tokens counted up to there.
pub open spec fn continued<T>(read: Seq<T>, before: nat, rest: Step<Seq<T>>) -> Step<Seq<T>> {
    Step {
        value: match rest.value {
            Ok(more) => Ok(read + more),
            Err(error) => Err(error),
        },
        taken: before + rest.taken,
    }
}

/// As `continued`, except that after an error no token counts as taken.
pub open spec fn resumed<T>(read: Seq<T>, before: nat, rest: Step<Seq<T>>) -> Step<Seq<T>> {
    match rest.value {
        Ok(more) => finish(read + more, before + rest.taken),
        Err(error) => stop(error, 0),
    }
}

/// Reading one more item and then the rest is reading the rest after all the items so far.
pub proof fn lemma_continued<T>(read: Seq<T>, before: nat, first: T, taken: nat, rest: Step<Seq<T>>)
    ensures
        continued(read, before, shift(prepend(first, rest), taken)) == continued(
            read.push(first),
            before + taken,
            rest,
        ),
{
    if let Ok(more) = rest.value {
        assert(read + (seq![first] + more) =~= read.push(first) + more);
    }
}

pub proof fn lemma_resumed<T>(read: Seq<T>, before: nat, first: T, taken: nat, rest: Step<Seq<T>>)
    ensures
        resumed(read, before, resumed(seq![first], taken, rest)) == resumed(
            read.push(first),
            before + taken,
            rest,
        ),
{
    if let Ok(more) = rest.value {
        assert(read + (seq![first] + more) =~= read.push(first) + more);
    }
}

/// The token at `at`, if there is one.
pub open spec fn peek(tokens: Seq<Lexeme>, at: int) -> Option<Lexeme> {
    if 0 <= at < tokens.len() {
        Some(tokens[at])
    } else {
        None
    }
}

/// The number of tokens from `at` to the end.
pub open spec fn remaining(tokens: Seq<Lexeme>, at: int) -> nat {
    if 0 <= at < tokens.len() {
        (tokens.len() - at) as nat
    } else {
        0
    }
}

/// Whether a token of `kind` stands at `at`.
pub open spec fn is_at(tokens: Seq<Lexeme>, at: int, kind: TokenKind) -> bool {
    0 <= at < tokens.len() && tokens[at].kind == kind
}

/// How far the cursor moves when told to advance: one token, or not at all
/// at the end of the sequence.
pub open spec fn advance_by(tokens: Seq<Lexeme>, at: int) -> nat {
    if 0 <= at < tokens.len() {
        1
    } else {
        0
    }
}

/// The error for meeting `found`, or the end of the tokens, where `expected` was due.
pub open spec fn mismatch(expected: Expected, found: Option<Lexeme>) -> ParseError {
    match found {
        Some(token) => unexpected(expected, token.kind),
        None => ran_out(expected),
    }
}

/// Checks that the token at `at` is `wanted`.
pub open spec fn expect(tokens: Seq<Lexeme>, at: int, wanted: Lexeme) -> Result<
    Lexeme,
    ParseError,
> {
    if peek(tokens, at) == Some(wanted) {
        Ok(wanted)
    } else {
        Err(mismatch(Expected::Token(wanted.kind), peek(tokens, at)))
    }
}

/// Checks that the token at `at` is `wanted`, and moves past it if it is.
/// Where it is not, nothing is consumed.
pub open spec fn expect_and_consume(tokens: Seq<Lexeme>, at: int, wanted: Lexeme) -> Step<Lexeme> {
    Step {
        value: expect(tokens, at, wanted),
        taken: if expect(tokens, at, wanted) is Ok {
            1
        } else {
            0
        },
    }
}

/// Moves past the token at `at` if it is the one of `kind`, and fails without moving if not.
pub open spec fn consume(tokens: Seq<Lexeme>, at: int, kind: TokenKind) -> Step<Lexeme> {
    expect_and_consume(tokens, at, plain(kind))
}

/// Advances over the token at `at`, which has to be an identifier and names a `role`.
pub open spec fn identifier(tokens: Seq<Lexeme>, at: int, role: Expected) -> Step<Seq<char>> {
    Step {
        value: if is_at(tokens, at, TokenKind::Identifier) {
            Ok(tokens[at].text)
        } else {
            Err(mismatch(role, peek(tokens, at)))
        },
        taken: advance_by(tokens, at),
    }
}

/// The type a name stands for: a built-in type where the name is exactly
/// that of one, a custom type otherwise.
pub open spec fn type_of_name(name: Seq<char>) -> TypeView {
    if name == "i32"@ {
        TypeView::I32
    } else if name == "i64"@ {
        TypeView::I64
    } else if name == "u32"@ {
        TypeView::U32
    } else if name == "u64"@ {
        TypeView::U64
    } else if name == "f32"@ {
        TypeView::F32
    } else if name == "f64"@ {
        TypeView::F64
    } else if name == "bool"@ {
        TypeView::BOOL
    } else if name == "char"@ {
        TypeView::CHAR
    } else if name == "string"@ {
        TypeView::STRING
    } else {
        TypeView::Custom(name)
    }
}

/// Advances over the token at `at`, which has to be an identifier and names a type.
pub open spec fn named_type(tokens: Seq<Lexeme>, at: int) -> Step<TypeView> {
    let name = identifier(tokens, at, Expected::TypeName);
    Step {
        value: match name.value {
            Ok(text) => Ok(type_of_name(text)),
            Err(error) => Err(error),
        },
        taken: name.taken,
    }
}

/// The arithmetic operator a symbol stands for.
pub open spec fn binary_op_of(symbol: Seq<char>) -> Option<BinaryOp> {
    if symbol == "+"@ {
        Some(BinaryOp::Add)
    } else if symbol == "-"@ {
        Some(BinaryOp::Sub)
    } else if symbol == "/"@ {
        Some(BinaryOp::Div)
    } else if symbol == "*"@ {
        Some(BinaryOp::Mul)
    } else {
        None
    }
}

/// The arithmetic operator a token stands for.
pub open spec fn bin_op_of_token(token: Lexeme) -> Option<BinaryOp> {
    if token.kind == TokenKind::Operator {
        binary_op_of(token.text)
    } else {
        None
    }
}

/// The literal a numeral stands for.
pub open spec fn numeral(text: Seq<char>) -> Result<ExpressionView, ParseError> {
    match classify(text) {
        Some(Number::Integer(value)) => Ok(ExpressionView::IntLiteral(value)),
        Some(Number::Float) => Ok(ExpressionView::FloatLiteral(text)),
        None => Err(bad_numeral()),
    }
}

/// Length of the argument that starts at `at`, `depth` parentheses deep: the
/// number of tokens before the comma or the closing parenthesis that ends it,
/// both of which count only outside nested parentheses.
pub open spec fn span_len(tokens: Seq<Lexeme>, at: int, depth: nat) -> nat
    decreases tokens.len() - at,
{
    if at < 0 || at >= tokens.len() {
        0
    } else if tokens[at].kind == TokenKind::LParen {
        1 + span_len(tokens, at + 1, depth + 1)
    } else if tokens[at].kind == TokenKind::RParen {
        if depth == 0 {
            0
        } else {
            1 + span_len(tokens, at + 1, (depth - 1) as nat)
        }
    } else if tokens[at].kind == TokenKind::ArgumentSeparator && depth == 0 {
        0
    } else {
        1 + span_len(tokens, at + 1, depth)
    }
}

/// An expression: an atom, one closing parenthesis where one follows, and
/// then, unless the tokens or the statement end there, one operator and one
/// more atom, with again one closing parenthesis where one follows.
pub open spec fn expression(tokens: Seq<Lexeme>, at: int) -> Step<ExpressionView>
    decreases tokens.len(), tokens.len() - at, 2int,
{
    let left = atom(tokens, at);
    let after_left = at + left.taken;
    let operator_at = if is_at(tokens, after_left, TokenKind::RParen) {
        after_left + 1
    } else {
        after_left
    };
    if left.value is Err || after_left >= tokens.len() || at < 0 {
        left
    } else if operator_at >= tokens.len() || is_at(tokens, operator_at, TokenKind::StatementEnd) {
        finish(left.value->Ok_0, (operator_at - at) as nat)
    } else if is_at(tokens, operator_at, TokenKind::RParen) {
        finish(left.value->Ok_0, (operator_at + 1 - at) as nat)
    } else {
        match bin_op_of_token(tokens[operator_at]) {
            None => stop(
                unexpected(Expected::BinaryOperator, tokens[operator_at].kind),
                (operator_at + 1 - at) as nat,
            ),
            Some(op) => {
                let right = atom(tokens, operator_at + 1);
                let after_right = operator_at + 1 + right.taken;
                match right.value {
                    Err(error) => stop(error, (after_right - at) as nat),
                    Ok(operand) => finish(
                        ExpressionView::Binary {
                            op,
                            left: Box::new(left.value->Ok_0),
                            right: Box::new(operand),
                        },
                        (after_right + (if is_at(tokens, after_right, TokenKind::RParen) {
                            1int
                        } else {
                            0int
                        }) - at) as nat,
                    ),
                }
            },
        }
    }
}

/// An atom: an expression behind an opening parenthesis, a numeral, a call,
/// or a variable.
pub open spec fn atom(tokens: Seq<Lexeme>, at: int) -> Step<ExpressionView>
    decreases tokens.len(), tokens.len() - at, 1int,
{
    match peek(tokens, at) {
        None => stop(ran_out(Expected::Expression), 0),
        Some(token) => {
            if token.kind == TokenKind::LParen {
                shift(expression(tokens, at + 1), 1)
            } else if token.kind == TokenKind::Number {
                Step { value: numeral(token.text), taken: 1 }
            } else if token.kind == TokenKind::Identifier {
                if is_at(tokens, at + 1, TokenKind::LParen) {
                    shift(function_call(tokens, at + 1, token.text), 1)
                } else {
                    finish(ExpressionView::Variable(token.text), 1)
                }
            } else {
                stop(unexpected(Expected::Expression, token.kind), 1)
            }
        },
    }
}

/// A call of `name`, whose opening parenthesis stands at `at`. When an
/// argument cannot be read, the cursor stays behind that parenthesis.
pub open spec fn function_call(tokens: Seq<Lexeme>, at: int, name: Seq<char>) -> Step<
    ExpressionView,
>
    decreases tokens.len(), tokens.len() - at, 0int,
{
    let open = consume(tokens, at, TokenKind::LParen);
    if open.value is Err {
        stop(open.value->Err_0, open.taken)
    } else {
        let list = argument_list(tokens, at + 1);
        match list.value {
            Err(error) => stop(error, 1),
            Ok(args) => finish(ExpressionView::FunctionCall { name, args }, 1 + list.taken),
        }
    }
}

/// The arguments of a call, from behind its opening parenthesis up to and
/// with its closing one: none, or one or more with commas between them.
pub open spec fn argument_list(tokens: Seq<Lexeme>, at: int) -> Step<Seq<ExpressionView>>
    decreases tokens.len(), tokens.len() - at, 3int,
{
    if is_at(tokens, at, TokenKind::RParen) {
        finish(Seq::empty(), 1)
    } else {
        arguments(tokens, at)
    }
}

/// One or more arguments. Each is the expression read from the tokens of its
/// span alone, from the first of them; what that expression leaves unread of
/// the span is passed over.
pub open spec fn arguments(tokens: Seq<Lexeme>, at: int) -> Step<Seq<ExpressionView>>
    decreases tokens.len(), tokens.len() - at, 2int,
{
    let end = at + span_len(tokens, at, 0);
    if at < 0 || end >= tokens.len() {
        stop(ran_out(Expected::Token(TokenKind::RParen)), 0)
    } else {
        match expression(tokens.subrange(at, end), 0).value {
            Err(error) => stop(error, 0),
            Ok(first) => {
                if tokens[end].kind == TokenKind::RParen {
                    finish(seq![first], (end + 1 - at) as nat)
                } else {
                    resumed(seq![first], (end + 1 - at) as nat, arguments(tokens, end + 1))
                }
            },
        }
    }
}

/// No expression is read from no tokens.
pub proof fn lemma_empty_span_is_no_expression(tokens: Seq<Lexeme>, at: int)
    requires
        0 <= at <= tokens.len(),
    ensures
        expression(tokens.subrange(at, at), 0).value is Err,
{
    let none = tokens.subrange(at, at);
    assert(none.len() == 0);
    assert(atom(none, 0).value is Err);
}

/// The rest of a statement that started with `ret`.
#[verifier::opaque]
pub open spec fn ret_statement(tokens: Seq<Lexeme>, at: int) -> Step<StatementView> {
    let value = expression(tokens, at);
    let end = consume(tokens, at + value.taken, TokenKind::StatementEnd);
    if value.value is Err {
        stop(value.value->Err_0, value.taken)
    } else if end.value is Err {
        stop(end.value->Err_0, value.taken + end.taken)
    } else {
        finish(StatementView::Ret { value: value.value->Ok_0 }, value.taken + 1)
    }
}

/// The rest of a statement that started with `let`.
#[verifier::opaque]
pub open spec fn let_statement(tokens: Seq<Lexeme>, at: int) -> Step<StatementView> {
    let name = identifier(tokens, at, Expected::VariableName);
    let bar = consume(tokens, at + 1, TokenKind::TypeDecl);
    let type_annotation = named_type(tokens, at + 2);
    let arrow = consume(tokens, at + 3, TokenKind::Assign);
    let value = expression(tokens, at + 4);
    let end = consume(tokens, at + 4 + value.taken, TokenKind::StatementEnd);
    if name.value is Err {
        stop(name.value->Err_0, name.taken)
    } else if bar.value is Err {
        stop(bar.value->Err_0, 1 + bar.taken)
    } else if type_annotation.value is Err {
        stop(type_annotation.value->Err_0, 2 + type_annotation.taken)
    } else if arrow.value is Err {
        stop(arrow.value->Err_0, 3 + arrow.taken)
    } else if value.value is Err {
        stop(value.value->Err_0, 4 + value.taken)
    } else if end.value is Err {
        stop(end.value->Err_0, 4 + value.taken + end.taken)
    } else {
        finish(
            StatementView::Let {
                name: name.value->Ok_0,
                type_annotation: type_annotation.value->Ok_0,
                value: value.value->Ok_0,
            },
            4 + value.taken + 1,
        )
    }
}

/// The rest of a call statement: the call of `name`, whose opening
/// parenthesis stands at `at`, and a semicolon.
#[verifier::opaque]
pub open spec fn call_statement(tokens: Seq<Lexeme>, at: int, name: Seq<char>) -> Step<
    StatementView,
> {
    let call = function_call(tokens, at, name);
    let end = consume(tokens, at + call.taken, TokenKind::StatementEnd);
    if call.value is Err {
        stop(call.value->Err_0, call.taken)
    } else if end.value is Err {
        stop(end.value->Err_0, call.taken + end.taken)
    } else {
        finish(StatementView::FunctionCall { call: call.value->Ok_0 }, call.taken + 1)
    }
}

/// The rest of an assignment to `name`: an arrow, an expression and a semicolon.
#[verifier::opaque]
pub open spec fn assignment(tokens: Seq<Lexeme>, at: int, name: Seq<char>) -> Step<StatementView> {
    let arrow = consume(tokens, at, TokenKind::Assign);
    let value = expression(tokens, at + 1);
    let end = consume(tokens, at + 1 + value.taken, TokenKind::StatementEnd);
    if arrow.value is Err {
        stop(arrow.value->Err_0, arrow.taken)
    } else if value.value is Err {
        stop(value.value->Err_0, 1 + value.taken)
    } else if end.value is Err {
        stop(end.value->Err_0, 1 + value.taken + end.taken)
    } else {
        finish(StatementView::Assign { name, new_value: value.value->Ok_0 }, 1 + value.taken + 1)
    }
}

/// The rest of a statement that started with the identifier `name`: a call
/// where an opening parenthesis follows, an assignment otherwise.
#[verifier::opaque]
pub open spec fn identifier_statement(tokens: Seq<Lexeme>, at: int, name: Seq<char>) -> Step<
    StatementView,
> {
    if peek(tokens, at) is None {
        stop(ran_out(Expected::Token(TokenKind::Assign)), 0)
    } else if is_at(tokens, at, TokenKind::LParen) {
        call_statement(tokens, at, name)
    } else {
        assignment(tokens, at, name)
    }
}

/// One statement. Its first token decides which.
#[verifier::opaque]
pub open spec fn statement(tokens: Seq<Lexeme>, at: int) -> Step<StatementView> {
    match peek(tokens, at) {
        None => stop(ran_out(Expected::Statement), 0),
        Some(token) => {
            if token.kind == TokenKind::Let {
                shift(let_statement(tokens, at + 1), 1)
            } else if token.kind == TokenKind::Return {
                shift(ret_statement(tokens, at + 1), 1)
            } else if token.kind == TokenKind::Identifier {
                shift(identifier_statement(tokens, at + 1, token.text), 1)
            } else {
                stop(unexpected(Expected::Statement, token.kind), 1)
            }
        },
    }
}

/// A statement, read or not, takes its first token along.
pub proof fn lemma_statement_advances(tokens: Seq<Lexeme>, at: int)
    ensures
        0 <= at < tokens.len() ==> statement(tokens, at).taken > 0,
{
    reveal(statement);
}

/// The statements of a body, up to and with the closing brace. A body that
/// the end marker or the end of the tokens cuts short is an error.
pub open spec fn statements(tokens: Seq<Lexeme>, at: int) -> Step<Seq<StatementView>>
    decreases remaining(tokens, at),
{
    match peek(tokens, at) {
        None => stop(ran_out(Expected::Token(TokenKind::RBrace)), 0),
        Some(token) => {
            if token.kind == TokenKind::RBrace {
                finish(Seq::empty(), 1)
            } else if token.kind == TokenKind::EOF {
                stop(unexpected(Expected::Token(TokenKind::RBrace), TokenKind::EOF), 0)
            } else {
                let first = statement(tokens, at);
                proof {
                    lemma_statement_advances(tokens, at);
                }
                match first.value {
                    Err(error) => stop(error, first.taken),
                    Ok(first_statement) => shift(
                        prepend(first_statement, statements(tokens, at + first.taken)),
                        first.taken,
                    ),
                }
            }
        },
    }
}

/// One parameter: a label, a bar and a type.
#[verifier::opaque]
pub open spec fn parameter(tokens: Seq<Lexeme>, at: int) -> Step<(Seq<char>, TypeView)> {
    let label = identifier(tokens, at, Expected::ParameterName);
    let bar = consume(tokens, at + 1, TokenKind::TypeDecl);
    let type_annotation = named_type(tokens, at + 2);
    if label.value is Err {
        stop(label.value->Err_0, label.taken)
    } else if bar.value is Err {
        stop(bar.value->Err_0, 1 + bar.taken)
    } else if type_annotation.value is Err {
        stop(type_annotation.value->Err_0, 2 + type_annotation.taken)
    } else {
        finish((label.value->Ok_0, type_annotation.value->Ok_0), 3)
    }
}

/// A parameter that is read spans three tokens.
pub proof fn lemma_parameter_spans_three(tokens: Seq<Lexeme>, at: int)
    ensures
        parameter(tokens, at).value is Ok ==> parameter(tokens, at).taken == 3,
{
    reveal(parameter);
}

/// One or more parameters with commas between them, up to but without the
/// closing parenthesis.
pub open spec fn parameters(tokens: Seq<Lexeme>, at: int) -> Step<Seq<(Seq<char>, TypeView)>>
    decreases tokens.len() - at,
{
    let first = parameter(tokens, at);
    let comma = consume(tokens, at + 3, TokenKind::ArgumentSeparator);
    if first.value is Err {
        stop(first.value->Err_0, first.taken)
    } else if is_at(tokens, at + 3, TokenKind::RParen) {
        finish(seq![first.value->Ok_0], 3)
    } else if comma.value is Err {
        stop(comma.value->Err_0, 3 + comma.taken)
    } else {
        shift(prepend(first.value->Ok_0, parameters(tokens, at + 4)), 4)
    }
}

/// The parameters of a function, from behind the opening parenthesis up to
/// but without the closing one: none, or one or more.
#[verifier::opaque]
pub open spec fn parameter_list(tokens: Seq<Lexeme>, at: int) -> Step<Seq<(Seq<char>, TypeView)>> {
    if is_at(tokens, at, TokenKind::RParen) {
        finish(Seq::empty(), 0)
    } else {
        parameters(tokens, at)
    }
}

/// The return type of a function, where an arrow announces one.
#[verifier::opaque]
pub open spec fn return_type(tokens: Seq<Lexeme>, at: int) -> Step<Option<TypeView>> {
    if is_at(tokens, at, TokenKind::RetType) {
        let named = named_type(tokens, at + 1);
        Step {
            value: match named.value {
                Ok(t) => Ok(Some(t)),
                Err(error) => Err(error),
            },
            taken: 1 + named.taken,
        }
    } else {
        finish(None, 0)
    }
}

/// What stands in front of a function's body.
pub struct Signature {
    pub name: Seq<char>,
    pub arguments: Seq<(Seq<char>, TypeView)>,
    pub return_type: Option<TypeView>,
}

/// The head of a function declaration, from its `fn` up to but without the
/// brace that opens its body.
#[verifier::opaque]
pub open spec fn signature(tokens: Seq<Lexeme>, at: int) -> Step<Signature> {
    let keyword = consume(tokens, at, TokenKind::Function);
    let name = identifier(tokens, at + 1, Expected::FunctionName);
    let open = consume(tokens, at + 2, TokenKind::LParen);
    let arguments = parameter_list(tokens, at + 3);
    let close = consume(tokens, at + 3 + arguments.taken, TokenKind::RParen);
    let result = return_type(tokens, at + 4 + arguments.taken);
    if keyword.value is Err {
        stop(keyword.value->Err_0, keyword.taken)
    } else if name.value is Err {
        stop(name.value->Err_0, 1 + name.taken)
    } else if open.value is Err {
        stop(open.value->Err_0, 2 + open.taken)
    } else if arguments.value is Err {
        stop(arguments.value->Err_0, 3 + arguments.taken)
    } else if close.value is Err {
        stop(close.value->Err_0, 3 + arguments.taken + close.taken)
    } else if result.value is Err {
        stop(result.value->Err_0, 4 + arguments.taken + result.taken)
    } else {
        finish(
            Signature {
                name: name.value->Ok_0,
                arguments: arguments.value->Ok_0,
                return_type: result.value->Ok_0,
            },
            4 + arguments.taken + result.taken,
        )
    }
}

/// A function declaration, from its `fn` to the brace that closes its body.
#[verifier::opaque]
pub open spec fn function(tokens: Seq<Lexeme>, at: int) -> Step<ProgramObjectView> {
    let head = signature(tokens, at);
    let brace = consume(tokens, at + head.taken, TokenKind::LBrace);
    let body = statements(tokens, at + head.taken + 1);
    if head.value is Err {
        stop(head.value->Err_0, head.taken)
    } else if brace.value is Err {
        stop(brace.value->Err_0, head.taken + brace.taken)
    } else if body.value is Err {
        stop(body.value->Err_0, head.taken + 1 + body.taken)
    } else {
        finish(
            ProgramObjectView::Function {
                name: head.value->Ok_0.name,
                arguments: head.value->Ok_0.arguments,
                return_type: head.value->Ok_0.return_type,
                statements: body.value->Ok_0,
            },
            head.taken + 1 + body.taken,
        )
    }
}

/// One top-level object. Nothing is consumed unless it starts like one.
#[verifier::opaque]
pub open spec fn object(tokens: Seq<Lexeme>, at: int) -> Step<ProgramObjectView> {
    match peek(tokens, at) {
        None => stop(ran_out(Expected::ProgramObject), 0),
        Some(token) => {
            if token.kind == TokenKind::Function {
                function(tokens, at)
            } else {
                stop(unexpected(Expected::ProgramObject, token.kind), 0)
            }
        },
    }
}

/// An object that is read spans at least one token.
pub proof fn lemma_object_advances(tokens: Seq<Lexeme>, at: int)
    ensures
        object(tokens, at).value is Ok ==> 0 <= at < tokens.len() && object(tokens, at).taken > 0,
{
    reveal(object);
    reveal(function);
    reveal(signature);
}

/// The objects of a program: as many as can be read one after the other.
/// The first that cannot be read ends the program without an error; the
/// cursor stays where that attempt left it.
pub open spec fn program(tokens: Seq<Lexeme>, at: int) -> (Seq<ProgramObjectView>, nat)
    decreases remaining(tokens, at),
{
    let first = object(tokens, at);
    match first.value {
        Err(_) => (Seq::empty(), first.taken),
        Ok(first_object) => {
            proof {
                lemma_object_advances(tokens, at);
            }
            let rest = program(tokens, at + first.taken);
            (seq![first_object] + rest.0, first.taken + rest.1)
        },
    }
}

} // verus!
