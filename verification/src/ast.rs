//! The syntax tree, and the mathematical value of each of its nodes.

use vstd::prelude::*;

verus! {

/// The arithmetic operators an expression can apply.
#[derive(Clone, Copy, Debug, PartialEq, Eq, Structural)]
pub enum BinaryOp {
    Add,
    Sub,
    Mul,
    Div,
}

/// A type as written in the source: one of the built-in names, or any other name.
#[derive(Debug, PartialEq)]
pub enum Type {
    I32,
    U32,
    F32,
    I64,
    U64,
    F64,
    BOOL,
    CHAR,
    STRING,
    Custom(String),
}

#[derive(Debug, PartialEq)]
pub enum Expression {
    IntLiteral(i64),
    /// A numeral that is read as a float, kept as it was written.
    FloatLiteral(String),
    StringLiteral(String),
    Variable(String),
    Binary { op: BinaryOp, left: Box<Expression>, right: Box<Expression> },
    FunctionCall { name: String, args: Vec<Expression> },
}

#[derive(Debug, PartialEq)]
pub enum Statement {
    Let { name: String, type_annotation: Type, value: Expression },
    /// An assignment to a variable that already exists.
    Assign { name: String, new_value: Expression },
    Ret { value: Expression },
    FunctionCall { call: Expression },
}

#[derive(Debug, PartialEq)]
pub enum ProgramObject {
    Function {
        name: String,
        arguments: Vec<(String, Type)>,
        return_type: Option<Type>,
        statements: Vec<Statement>,
    },
}

/// A whole source unit: its top-level objects in the order they were written.
#[derive(Debug, PartialEq)]
pub struct Program {
    pub objs: Vec<ProgramObject>,
}

pub enum TypeView {
    I32,
    U32,
    F32,
    I64,
    U64,
    F64,
    BOOL,
    CHAR,
    STRING,
    Custom(Seq<char>),
}

pub enum ExpressionView {
    IntLiteral(i64),
    FloatLiteral(Seq<char>),
    StringLiteral(Seq<char>),
    Variable(Seq<char>),
    Binary { op: BinaryOp, left: Box<ExpressionView>, right: Box<ExpressionView> },
    FunctionCall { name: Seq<char>, args: Seq<ExpressionView> },
}

pub enum StatementView {
    Let { name: Seq<char>, type_annotation: TypeView, value: ExpressionView },
    Assign { name: Seq<char>, new_value: ExpressionView },
    Ret { value: ExpressionView },
    FunctionCall { call: ExpressionView },
}

pub enum ProgramObjectView {
    Function {
        name: Seq<char>,
        arguments: Seq<(Seq<char>, TypeView)>,
        return_type: Option<TypeView>,
        statements: Seq<StatementView>,
    },
}

impl View for Type {
    type V = TypeView;

    open spec fn view(&self) -> TypeView {
        match self {
            Type::I32 => TypeView::I32,
            Type::U32 => TypeView::U32,
            Type::F32 => TypeView::F32,
            Type::I64 => TypeView::I64,
            Type::U64 => TypeView::U64,
            Type::F64 => TypeView::F64,
            Type::BOOL => TypeView::BOOL,
            Type::CHAR => TypeView::CHAR,
            Type::STRING => TypeView::STRING,
            Type::Custom(name) => TypeView::Custom(name@),
        }
    }
}

impl Expression {
    /// The value of an expression tree, node by node.
    pub open spec fn model(&self) -> ExpressionView
        decreases self,
    {
        match self {
            Expression::IntLiteral(value) => ExpressionView::IntLiteral(*value),
            Expression::FloatLiteral(text) => ExpressionView::FloatLiteral(text@),
            Expression::StringLiteral(text) => ExpressionView::StringLiteral(text@),
            Expression::Variable(name) => ExpressionView::Variable(name@),
            Expression::Binary { op, left, right } => ExpressionView::Binary {
                op: *op,
                left: Box::new(left.model()),
                right: Box::new(right.model()),
            },
            Expression::FunctionCall { name, args } => ExpressionView::FunctionCall {
                name: name@,
                args: Seq::new(
                    args@.len(),
                    |i: int|
                        if 0 <= i < args@.len() {
                            args@[i].model()
                        } else {
                            ExpressionView::IntLiteral(0)
                        },
                ),
            },
        }
    }
}

impl View for Expression {
    type V = ExpressionView;

    open spec fn view(&self) -> ExpressionView {
        self.model()
    }
}

/// The values of a sequence of expressions, one for one.
pub open spec fn expression_views(expressions: Seq<Expression>) -> Seq<ExpressionView> {
    Seq::new(expressions.len(), |i: int| expressions[i]@)
}

/// A call node's arguments are the values of the expressions it holds.
pub proof fn lemma_call_view(name: String, args: Vec<Expression>)
    ensures
        (Expression::FunctionCall { name, args })@ == (ExpressionView::FunctionCall {
            name: name@,
            args: expression_views(args@),
        }),
{
    let call = Expression::FunctionCall { name, args };
    assert(call@->FunctionCall_args =~= expression_views(args@));
}

impl View for Statement {
    type V = StatementView;

    open spec fn view(&self) -> StatementView {
        match self {
            Statement::Let { name, type_annotation, value } => StatementView::Let {
                name: name@,
                type_annotation: type_annotation@,
                value: value@,
            },
            Statement::Assign { name, new_value } => StatementView::Assign {
                name: name@,
                new_value: new_value@,
            },
            Statement::Ret { value } => StatementView::Ret { value: value@ },
            Statement::FunctionCall { call } => StatementView::FunctionCall { call: call@ },
        }
    }
}

/// The values of a sequence of statements, one for one.
pub open spec fn statement_views(statements: Seq<Statement>) -> Seq<StatementView> {
    Seq::new(statements.len(), |i: int| statements[i]@)
}

/// The values of a parameter list, one for one.
pub open spec fn parameter_views(parameters: Seq<(String, Type)>) -> Seq<(Seq<char>, TypeView)> {
    Seq::new(parameters.len(), |i: int| (parameters[i].0@, parameters[i].1@))
}

/// The value of an optional type.
pub open spec fn optional_type_view(t: Option<Type>) -> Option<TypeView> {
    match t {
        Some(t) => Some(t@),
        None => None,
    }
}

impl View for ProgramObject {
    type V = ProgramObjectView;

    open spec fn view(&self) -> ProgramObjectView {
        match self {
            ProgramObject::Function {
                name,
                arguments,
                return_type,
                statements,
            } => ProgramObjectView::Function {
                name: name@,
                arguments: parameter_views(arguments@),
                return_type: optional_type_view(*return_type),
                statements: statement_views(statements@),
            },
        }
    }
}

/// The values of a sequence of top-level objects, one for one.
pub open spec fn object_views(objects: Seq<ProgramObject>) -> Seq<ProgramObjectView> {
    Seq::new(objects.len(), |i: int| objects[i]@)
}

impl View for Program {
    type V = Seq<ProgramObjectView>;

    open spec fn view(&self) -> Seq<ProgramObjectView> {
        object_views(self.objs@)
    }
}

} // verus!
