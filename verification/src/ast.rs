//! The abstract syntax tree and the type algebra.
//!
//! Every identifier-bearing node carries a [`Span`] into the source buffer,
//! never a copy of the text. Type names written in the source (parameter
//! types, return types, literal suffixes) stay unresolved identifiers here;
//! the type checker resolves them against the fixed type table.
//!
//! [`Type`] is the closed, recursive type algebra. Its equality is
//! structural: composite types are equal exactly when their components are
//! recursively equal, and the integer types compare by their exact width and
//! signedness. The spec function [`type_eq`] states this; `==` on `Type` is
//! proved to follow it.

use vstd::prelude::*;

use crate::lexer::Span;

verus! {

/// The signed integer types of the language.
#[derive(Clone, Copy, Debug, PartialEq, Eq, Structural)]
pub enum IntType {
    ISize,
    I8,
    I16,
    I32,
    I64,
}

/// The unsigned integer types of the language.
#[derive(Clone, Copy, Debug, PartialEq, Eq, Structural)]
pub enum UIntType {
    USize,
    U8,
    U16,
    U32,
    U64,
}

/// The resolved type of an integer literal: signed or unsigned when a type
/// suffix names it, or still unresolved when the literal has no suffix.
#[derive(Clone, Copy, Debug, PartialEq, Eq, Structural)]
pub enum LiteralIntType {
    Signed(IntType),
    Unsigned(UIntType),
    Unsuffixed,
}

/// The closed type algebra.
#[derive(Debug)]
pub enum Type {
    Boolean,
    Int(IntType),
    UInt(UIntType),
    /// The placeholder type of an integer literal without a suffix, to be
    /// reconciled with a concrete integer type by the surrounding context.
    IntegerLiteral,
    Void,
    Pointer { type_id: Box<Type> },
    /// The type of an array literal; `size` is its element count.
    Array { type_id: Box<Type>, size: usize },
    Function { parameters: Vec<Type>, return_type: Box<Type> },
    /// The absence of a type, as in the element type of an empty array.
    Absent,
}

/// Structural type equality: primitive variants are equal when they are the
/// same variant (integer widths included), and composite types are equal when
/// their components are recursively equal.
pub open spec fn type_eq(a: Type, b: Type) -> bool
    decreases a,
{
    match (a, b) {
        (Type::Boolean, Type::Boolean) => true,
        (Type::Int(x), Type::Int(y)) => x == y,
        (Type::UInt(x), Type::UInt(y)) => x == y,
        (Type::IntegerLiteral, Type::IntegerLiteral) => true,
        (Type::Void, Type::Void) => true,
        (Type::Absent, Type::Absent) => true,
        (Type::Pointer { type_id: x }, Type::Pointer { type_id: y }) => type_eq(*x, *y),
        (Type::Array { type_id: x, size: n }, Type::Array { type_id: y, size: m }) => n == m
            && type_eq(*x, *y),
        (
            Type::Function { parameters: p, return_type: r },
            Type::Function { parameters: q, return_type: t },
        ) => {
            &&& p@.len() == q@.len()
            &&& forall|i: int| 0 <= i < p@.len() ==> type_eq(#[trigger] p@[i], q@[i])
            &&& type_eq(*r, *t)
        },
        _ => false,
    }
}

/// Structural equality is reflexive.
pub proof fn lemma_type_eq_reflexive(a: Type)
    ensures
        type_eq(a, a),
    decreases a,
{
    match a {
        Type::Pointer { type_id } => lemma_type_eq_reflexive(*type_id),
        Type::Array { type_id, size } => lemma_type_eq_reflexive(*type_id),
        Type::Function { parameters, return_type } => {
            assert forall|i: int| 0 <= i < parameters@.len() implies type_eq(
                #[trigger] parameters@[i],
                parameters@[i],
            ) by {
                lemma_type_eq_reflexive(parameters@[i]);
            }
            lemma_type_eq_reflexive(*return_type);
        },
        _ => {},
    }
}

/// Structural equality is symmetric.
pub proof fn lemma_type_eq_symmetric(a: Type, b: Type)
    ensures
        type_eq(a, b) == type_eq(b, a),
    decreases a,
{
    match (a, b) {
        (Type::Pointer { type_id: x }, Type::Pointer { type_id: y }) => {
            lemma_type_eq_symmetric(*x, *y);
        },
        (Type::Array { type_id: x, size: _ }, Type::Array { type_id: y, size: _ }) => {
            lemma_type_eq_symmetric(*x, *y);
        },
        (
            Type::Function { parameters: p, return_type: r },
            Type::Function { parameters: q, return_type: t },
        ) => {
            assert forall|i: int| 0 <= i < p@.len() && i < q@.len() implies type_eq(
                #[trigger] p@[i],
                q@[i],
            ) == type_eq(q@[i], p@[i]) by {
                lemma_type_eq_symmetric(p@[i], q@[i]);
            }
            lemma_type_eq_symmetric(*r, *t);
        },
        _ => {},
    }
}

/// Structural equality is transitive.
pub proof fn lemma_type_eq_transitive(a: Type, b: Type, c: Type)
    requires
        type_eq(a, b),
        type_eq(b, c),
    ensures
        type_eq(a, c),
    decreases a,
{
    match (a, b, c) {
        (Type::Pointer { type_id: x }, Type::Pointer { type_id: y }, Type::Pointer { type_id: z }) => {
            lemma_type_eq_transitive(*x, *y, *z);
        },
        (
            Type::Array { type_id: x, size: _ },
            Type::Array { type_id: y, size: _ },
            Type::Array { type_id: z, size: _ },
        ) => {
            lemma_type_eq_transitive(*x, *y, *z);
        },
        (
            Type::Function { parameters: p, return_type: r },
            Type::Function { parameters: q, return_type: s },
            Type::Function { parameters: u, return_type: t },
        ) => {
            assert forall|i: int| 0 <= i < p@.len() implies type_eq(#[trigger] p@[i], u@[i]) by {
                lemma_type_eq_transitive(p@[i], q@[i], u@[i]);
            }
            lemma_type_eq_transitive(*r, *s, *t);
        },
        _ => {},
    }
}

/// Structural equality over the type algebra, exactly [`type_eq`].
fn types_equal(a: &Type, b: &Type) -> (r: bool)
    ensures
        r == type_eq(*a, *b),
    decreases *a,
{
    match (a, b) {
        (Type::Boolean, Type::Boolean) => true,
        (Type::Int(x), Type::Int(y)) => x == y,
        (Type::UInt(x), Type::UInt(y)) => x == y,
        (Type::IntegerLiteral, Type::IntegerLiteral) => true,
        (Type::Void, Type::Void) => true,
        (Type::Absent, Type::Absent) => true,
        (Type::Pointer { type_id: x }, Type::Pointer { type_id: y }) => types_equal(x, y),
        (Type::Array { type_id: x, size: n }, Type::Array { type_id: y, size: m }) => n == m
            && types_equal(x, y),
        (
            Type::Function { parameters: p, return_type: r },
            Type::Function { parameters: q, return_type: t },
        ) => {
            if p.len() != q.len() {
                return false;
            }
            let mut i: usize = 0;
            let mut same = true;
            #[verifier::loop_isolation(false)]
            while i < p.len()
                invariant
                    0 <= i <= p@.len(),
                    same == forall|j: int| 0 <= j < i ==> type_eq(#[trigger] p@[j], q@[j]),
                decreases p@.len() - i,
            {
                if !types_equal(&p[i], &q[i]) {
                    same = false;
                }
                i = i + 1;
            }
            same && types_equal(r, t)
        },
        _ => false,
    }
}

impl PartialEq for Type {
    fn eq(&self, other: &Self) -> (r: bool) {
        types_equal(self, other)
    }
}

impl vstd::std_specs::cmp::PartialEqSpecImpl for Type {
    open spec fn obeys_eq_spec() -> bool {
        true
    }

    open spec fn eq_spec(&self, other: &Type) -> bool {
        type_eq(*self, *other)
    }
}

impl Type {
    /// An exact copy: the result is structurally equal to `self`.
    pub fn deep_clone(&self) -> (r: Type)
        ensures
            type_eq(r, *self),
        decreases *self,
    {
        match self {
            Type::Boolean => Type::Boolean,
            Type::Absent => Type::Absent,
            Type::Int(x) => Type::Int(*x),
            Type::UInt(x) => Type::UInt(*x),
            Type::IntegerLiteral => Type::IntegerLiteral,
            Type::Void => Type::Void,
            Type::Pointer { type_id } => Type::Pointer {
                type_id: Box::new(type_id.deep_clone()),
            },
            Type::Array { type_id, size } => Type::Array {
                type_id: Box::new(type_id.deep_clone()),
                size: *size,
            },
            Type::Function { parameters, return_type } => {
                let mut ps: Vec<Type> = Vec::new();
                let mut i: usize = 0;
                #[verifier::loop_isolation(false)]
                while i < parameters.len()
                    invariant
                        0 <= i <= parameters@.len(),
                        ps@.len() == i,
                        forall|j: int| 0 <= j < i ==> type_eq(#[trigger] ps@[j], parameters@[j]),
                    decreases parameters@.len() - i,
                {
                    ps.push(parameters[i].deep_clone());
                    i = i + 1;
                }
                Type::Function { parameters: ps, return_type: Box::new(return_type.deep_clone()) }
            },
        }
    }

    /// Whether this is a concrete integer type (signed or unsigned).
    pub open spec fn spec_is_integer(self) -> bool {
        self is Int || self is UInt
    }

    /// Whether this is a concrete integer type (signed or unsigned).
    pub fn is_integer(&self) -> (r: bool)
        ensures
            r == self.spec_is_integer(),
    {
        match self {
            Type::Int(_) => true,
            Type::UInt(_) => true,
            _ => false,
        }
    }
}

/// Reconciliation of two types that must agree, as at the two sides of a
/// binary operator or an initializer against its declared type: equal types
/// agree, and the placeholder type of an unsuffixed integer literal agrees
/// with any concrete integer type, which then stands for it. The rule is
/// shallow: a placeholder buried inside a composite type is not reconciled.
pub open spec fn spec_unify(a: Type, b: Type) -> Option<Type> {
    if type_eq(a, b) {
        Some(a)
    } else if a is IntegerLiteral && b.spec_is_integer() {
        Some(b)
    } else if b is IntegerLiteral && a.spec_is_integer() {
        Some(a)
    } else {
        Option::None
    }
}

/// Reconciles two types per [`spec_unify`], returning the agreed type.
pub fn unify(a: &Type, b: &Type) -> (r: Option<Type>)
    ensures
        r is Some <==> spec_unify(*a, *b) is Some,
        r matches Some(t) ==> type_eq(t, spec_unify(*a, *b)->0),
{
    proof {
        lemma_type_eq_reflexive(*a);
        lemma_type_eq_reflexive(*b);
    }
    if a == b {
        Some(a.deep_clone())
    } else if matches!(a, Type::IntegerLiteral) && b.is_integer() {
        Some(b.deep_clone())
    } else if matches!(b, Type::IntegerLiteral) && a.is_integer() {
        Some(a.deep_clone())
    } else {
        Option::None
    }
}

// ---------------------------------------------------------------------------
// Literals and identifiers.
// ---------------------------------------------------------------------------

/// A literal expression. An integer literal keeps the span of its numeric
/// part and, separately, the span of its type suffix when one was written.
#[derive(Clone, Copy, Debug, PartialEq, Eq, Structural)]
pub enum Literal {
    Int { literal: Span, suffix: Option<Span> },
    Boolean(bool),
}

/// A name occurrence: the span of an identifier in the source.
#[derive(Clone, Copy, Debug, PartialEq, Eq, Structural)]
pub struct Identifier {
    pub span: Span,
}

impl Identifier {
    pub fn new(span: Span) -> (r: Self)
        ensures
            r.span == span,
    {
        Self { span }
    }
}

/// A function parameter: its name, and the name of its declared type when
/// one was written.
#[derive(Clone, Copy, Debug, PartialEq, Eq, Structural)]
pub struct Parameter {
    pub id: Identifier,
    pub type_id: Option<Identifier>,
}

impl Parameter {
    pub fn new(id: Identifier, type_id: Option<Identifier>) -> (r: Self)
        ensures
            r.id == id,
            r.type_id == type_id,
    {
        Self { id, type_id }
    }
}

// ---------------------------------------------------------------------------
// Statements.
// ---------------------------------------------------------------------------

/// The root of a parsed compilation unit: the statements at module scope.
#[derive(Debug)]
pub struct ModuleStatement {
    pub statements: Vec<Statement>,
}

/// A declaration of a function defined elsewhere: a name and a signature,
/// with no body.
#[derive(Debug)]
pub struct ExternFunctionDeclarationStatement {
    pub id: Identifier,
    pub parameters: Vec<Parameter>,
    pub return_id: Option<Identifier>,
}

/// A function definition. `return_id` is the declared return type's name,
/// absent when the function returns nothing.
#[derive(Debug)]
pub struct FunctionDefinitionStatement {
    pub id: Identifier,
    pub parameters: Vec<Parameter>,
    pub return_id: Option<Identifier>,
    pub body: Expression,
}

/// A variable definition: `let name: type = initializer;`.
#[derive(Debug)]
pub struct VariableDefinitionStatement {
    pub id: Identifier,
    pub type_id: Identifier,
    pub initialize_expression: Expression,
}

/// A return statement: `return expression;`.
#[derive(Debug)]
pub struct ReturnStatement {
    pub expression: Expression,
}

#[derive(Debug)]
pub enum Statement {
    ExternFunctionDeclaration(Box<ExternFunctionDeclarationStatement>),
    FunctionDefinition(Box<FunctionDefinitionStatement>),
    VariableDefinition(Box<VariableDefinitionStatement>),
    Return(Box<ReturnStatement>),
}

// ---------------------------------------------------------------------------
// Expressions.
// ---------------------------------------------------------------------------

/// A block: statements followed by an optional trailing expression whose
/// value the block takes.
#[derive(Debug)]
pub struct BlockExpression {
    pub statements: Vec<Statement>,
    pub return_expression: Option<Expression>,
}

#[derive(Debug)]
pub struct UnaryExpression {
    pub operator: UnaryOperator,
    pub expression: Expression,
}

#[derive(Debug)]
pub struct BinaryExpression {
    pub operator: BinaryOperator,
    pub left: Expression,
    pub right: Expression,
}

#[derive(Debug)]
pub struct IfExpression {
    pub condition: Expression,
    pub true_path: Expression,
    pub false_path: Expression,
}

#[derive(Debug)]
pub struct CallExpression {
    pub callee: Expression,
    pub arguments: Vec<Expression>,
}

/// An indexing expression: `base[offset]`.
#[derive(Debug)]
pub struct AccessExpression {
    pub base: Expression,
    pub offset: Expression,
}

/// What an expression is; see [`Expression`] for the span that goes with it.
#[derive(Debug)]
pub enum ExpressionKind {
    Block(Box<BlockExpression>),
    Unary(Box<UnaryExpression>),
    Binary(Box<BinaryExpression>),
    If(Box<IfExpression>),
    Call(Box<CallExpression>),
    Access(Box<AccessExpression>),
    Array { elements: Vec<Expression> },
    Identifier(Identifier),
    Literal(Literal),
}

/// An expression together with the byte range of its source text. The span
/// covers the whole expression, so the text can be recovered exactly.
#[derive(Debug)]
pub struct Expression {
    pub kind: ExpressionKind,
    pub span: Span,
}

impl Expression {
    pub fn new(kind: ExpressionKind, span: Span) -> (r: Self)
        ensures
            r.kind == kind,
            r.span == span,
    {
        Self { kind, span }
    }
}

#[derive(Clone, Copy, Debug, PartialEq, Eq, Structural)]
pub enum UnaryOperator {
    Not,
    Minus,
    Deref,
}

#[derive(Clone, Copy, Debug, PartialEq, Eq, Structural)]
pub enum BinaryOperator {
    GreaterThan,
    GreaterEqualThan,
    Equal,
    LessEqualThan,
    LessThan,

    And,
    Or,
    Plus,
    Minus,
    Multiplication,
    Division,
}

// ---------------------------------------------------------------------------
// Well-formedness: every span of the tree lies within the source buffer.
// ---------------------------------------------------------------------------

pub open spec fn parameter_wf(p: Parameter, n: nat) -> bool {
    &&& p.id.span.in_bounds(n)
    &&& p.type_id matches Some(t) ==> t.span.in_bounds(n)
}

pub open spec fn literal_wf(l: Literal, n: nat) -> bool {
    match l {
        Literal::Int { literal, suffix } => {
            &&& literal.in_bounds(n)
            &&& suffix matches Some(sp) ==> sp.in_bounds(n)
        },
        Literal::Boolean(_) => true,
    }
}

pub open spec fn expression_wf(e: Expression, n: nat) -> bool
    decreases e,
{
    &&& e.span.in_bounds(n)
    &&& match e.kind {
        ExpressionKind::Block(b) => block_wf(*b, n),
        ExpressionKind::Unary(u) => expression_wf(u.expression, n),
        ExpressionKind::Binary(b) => expression_wf(b.left, n) && expression_wf(b.right, n),
        ExpressionKind::If(f) => expression_wf(f.condition, n) && expression_wf(f.true_path, n)
            && expression_wf(f.false_path, n),
        ExpressionKind::Call(c) => {
            &&& expression_wf(c.callee, n)
            &&& forall|i: int|
                0 <= i < c.arguments@.len() ==> expression_wf(#[trigger] c.arguments@[i], n)
        },
        ExpressionKind::Access(a) => expression_wf(a.base, n) && expression_wf(a.offset, n),
        ExpressionKind::Array { elements } => forall|i: int|
            0 <= i < elements@.len() ==> expression_wf(#[trigger] elements@[i], n),
        ExpressionKind::Identifier(id) => id.span.in_bounds(n),
        ExpressionKind::Literal(l) => literal_wf(l, n),
    }
}

pub open spec fn block_wf(b: BlockExpression, n: nat) -> bool
    decreases b,
{
    &&& forall|i: int| 0 <= i < b.statements@.len() ==> statement_wf(#[trigger] b.statements@[i], n)
    &&& b.return_expression matches Some(e) ==> expression_wf(e, n)
}

pub open spec fn statement_wf(st: Statement, n: nat) -> bool
    decreases st,
{
    match st {
        Statement::ExternFunctionDeclaration(d) => {
            &&& d.id.span.in_bounds(n)
            &&& forall|i: int|
                0 <= i < d.parameters@.len() ==> parameter_wf(#[trigger] d.parameters@[i], n)
            &&& d.return_id matches Some(t) ==> t.span.in_bounds(n)
        },
        Statement::FunctionDefinition(f) => {
            &&& f.id.span.in_bounds(n)
            &&& forall|i: int|
                0 <= i < f.parameters@.len() ==> parameter_wf(#[trigger] f.parameters@[i], n)
            &&& f.return_id matches Some(t) ==> t.span.in_bounds(n)
            &&& expression_wf(f.body, n)
        },
        Statement::VariableDefinition(v) => {
            &&& v.id.span.in_bounds(n)
            &&& v.type_id.span.in_bounds(n)
            &&& expression_wf(v.initialize_expression, n)
        },
        Statement::Return(r) => expression_wf(r.expression, n),
    }
}

pub open spec fn module_wf(m: ModuleStatement, n: nat) -> bool {
    forall|i: int| 0 <= i < m.statements@.len() ==> statement_wf(#[trigger] m.statements@[i], n)
}

} // verus!
