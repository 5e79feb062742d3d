//! The typed intermediate representation: the output of the type checker.
//!
//! The tree mirrors the checked syntax tree, but every expression node
//! carries its resolved [`Type`]. [`Expression::spec_type`] reads that type
//! in specifications; the executable [`Expression::type_`] is proved to
//! return a structurally equal copy of it.

use vstd::prelude::*;

use crate::ast;
use crate::ast::{BinaryOperator, Identifier, Type, UnaryOperator, type_eq};

verus! {

/// A literal together with its resolved type: the suffix's type for a
/// suffixed integer, the placeholder for an unsuffixed one, boolean for a
/// boolean literal.
#[derive(Debug)]
pub struct Literal {
    pub literal: ast::Literal,
    pub type_: Type,
}

impl Literal {
    pub fn new(literal: ast::Literal, type_: Type) -> (r: Self)
        ensures
            r.literal == literal,
            r.type_ == type_,
    {
        Self { literal, type_ }
    }

    /// The literal's resolved type.
    pub fn type_(&self) -> (r: Type)
        ensures
            type_eq(r, self.type_),
    {
        self.type_.deep_clone()
    }
}

/// A checked statement of a block or of the module.
#[derive(Debug)]
pub enum Statement {
    VariableDefinition { id: Identifier, type_: Type, initialize_expression: Expression },
    Return { expression: Expression },
}

/// A checked block: its statements, its optional trailing expression, and
/// the type of that trailing expression (or void without one).
#[derive(Debug)]
pub struct BlockExpression {
    pub type_: Type,
    pub statements: Vec<Statement>,
    pub return_expression: Option<Expression>,
}

/// A checked binary expression; `type_` is the common operand type.
#[derive(Debug)]
pub struct BinaryExpression {
    pub type_: Type,
    pub operator: BinaryOperator,
    pub lhs: Expression,
    pub rhs: Expression,
}

/// A checked expression. Every variant carries its resolved type.
#[derive(Debug)]
pub enum Expression {
    Block(Box<BlockExpression>),
    Unary { type_: Type, operator: UnaryOperator, expression: Box<Expression> },
    Binary(Box<BinaryExpression>),
    If {
        type_: Type,
        condition: Box<Expression>,
        true_path: Box<Expression>,
        false_path: Box<Expression>,
    },
    Call { type_: Type, callee: Box<Expression>, arguments: Vec<Expression> },
    Access { type_: Type, base: Box<Expression>, offset: Box<Expression> },
    Array { type_: Type, elements: Vec<Expression> },
    Identifier { type_: Type, id: Identifier },
    Literal(Literal),
}

impl Expression {
    /// The resolved type this node carries.
    pub open spec fn spec_type(self) -> Type {
        match self {
            Expression::Block(b) => b.type_,
            Expression::Unary { type_, .. } => type_,
            Expression::Binary(b) => b.type_,
            Expression::If { type_, .. } => type_,
            Expression::Call { type_, .. } => type_,
            Expression::Access { type_, .. } => type_,
            Expression::Array { type_, .. } => type_,
            Expression::Identifier { type_, .. } => type_,
            Expression::Literal(l) => l.type_,
        }
    }

    /// The resolved type this node carries, as an owned value.
    pub fn type_(&self) -> (r: Type)
        ensures
            type_eq(r, self.spec_type()),
    {
        match self {
            Expression::Block(b) => b.type_.deep_clone(),
            Expression::Unary { type_, .. } => type_.deep_clone(),
            Expression::Binary(b) => b.type_.deep_clone(),
            Expression::If { type_, .. } => type_.deep_clone(),
            Expression::Call { type_, .. } => type_.deep_clone(),
            Expression::Access { type_, .. } => type_.deep_clone(),
            Expression::Array { type_, .. } => type_.deep_clone(),
            Expression::Identifier { type_, .. } => type_.deep_clone(),
            Expression::Literal(l) => l.type_(),
        }
    }
}

/// A checked function: name, parameters with their resolved types, resolved
/// return type, and the checked body.
#[derive(Debug)]
pub struct Function {
    pub id: Identifier,
    pub parameters: Vec<(Identifier, Type)>,
    pub return_type: Type,
    pub body: Expression,
}

impl Function {
    pub fn new(
        id: Identifier,
        parameters: Vec<(Identifier, Type)>,
        return_type: Type,
        body: Expression,
    ) -> (r: Self)
        ensures
            r.id == id,
            r.parameters == parameters,
            r.return_type == return_type,
            r.body == body,
    {
        Self { id, parameters, return_type, body }
    }
}

/// A checked compilation unit: its functions, in source order, ready for
/// code generation.
#[derive(Debug)]
pub struct Module {
    pub functions: Vec<Function>,
}

} // verus!
