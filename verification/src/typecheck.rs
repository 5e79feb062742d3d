//! The scope-resolving type checker.
//!
//! Checking is a recursive walk of the syntax tree against an environment.
//! The spec functions `tc_expression`, `tc_block` and `tc_module_statements`
//! are the typing rules: they say, for a source buffer, an environment and a
//! node, exactly which type the node has or which error rejects it. The
//! executable checker is proved to follow them, and on success produces the
//! typed intermediate representation of [`crate::ir`].
//!
//! Every pass is fail-fast: the first error is returned.

use vstd::prelude::*;

use crate::ast::{
    BinaryExpression, BinaryOperator, BlockExpression, Expression, ExpressionKind,
    FunctionDefinitionStatement,
    Identifier, IntType, Literal, LiteralIntType, ModuleStatement, Parameter, Statement, Type,
    UIntType, UnaryOperator, expression_wf, literal_wf, module_wf, parameter_wf, spec_unify,
    statement_wf, type_eq, unify,
};
use crate::environment_builder::Environment;
use crate::ir;
use crate::lexer::Span;

verus! {

/// Why a compilation unit is rejected. Every pass returns the first error it
/// meets; none panics. Each variant carries the span the diagnostic points
/// at, and the types involved where there are any.
#[derive(Debug)]
pub enum TypeError {
    /// A function body's type differs from the declared return type, or a
    /// return statement's expression does; `function` is the span of the
    /// offending expression's function context.
    ReturnTypeMismatch { expected: Type, found: Type, function: Span },
    /// A variable's initializer differs from its declared type.
    InitializerTypeMismatch { expected: Type, found: Type, span: Span },
    /// A return statement stands outside every function.
    ReturnOutsideFunction { span: Span },
    /// An `if` condition is not boolean.
    NonBooleanCondition { found: Type, span: Span },
    /// The two branches of an `if` disagree in type.
    BranchTypeMismatch { true_path: Type, false_path: Type, span: Span },
    /// The two operands of a binary operator disagree in type.
    OperandTypeMismatch { left: Type, right: Type, span: Span },
    /// A call's callee is not a function. `found` is the callee's type.
    NotCallable { found: Type, span: Span },
    /// An argument differs from the corresponding parameter type; `found` is
    /// `Absent` when the number of arguments itself differs.
    ArgumentTypeMismatch { expected: Type, found: Type, span: Span },
    /// An indexing expression's base is not an array.
    NotIndexable { found: Type, span: Span },
    /// The elements of an array literal do not share one type.
    HeterogeneousArrayElements { span: Span },
    /// A literal suffix or a written type name is not in the fixed type
    /// table.
    InvalidTypeSuffix { span: Span },
    /// An identifier is bound nowhere in the scope chain.
    UnboundIdentifier { span: Span },
    /// A function declaration stands inside a block; functions are legal
    /// only at module scope.
    FunctionDefinitionInsideBlock { span: Span },
}

/// Equality of errors: the same variant, the same spans, and structurally
/// equal type payloads.
pub open spec fn type_error_eq(a: TypeError, b: TypeError) -> bool {
    match (a, b) {
        (
            TypeError::ReturnTypeMismatch { expected: e1, found: f1, function: s1 },
            TypeError::ReturnTypeMismatch { expected: e2, found: f2, function: s2 },
        ) => type_eq(e1, e2) && type_eq(f1, f2) && s1 == s2,
        (
            TypeError::InitializerTypeMismatch { expected: e1, found: f1, span: s1 },
            TypeError::InitializerTypeMismatch { expected: e2, found: f2, span: s2 },
        ) => type_eq(e1, e2) && type_eq(f1, f2) && s1 == s2,
        (
            TypeError::ReturnOutsideFunction { span: s1 },
            TypeError::ReturnOutsideFunction { span: s2 },
        ) => s1 == s2,
        (
            TypeError::NonBooleanCondition { found: f1, span: s1 },
            TypeError::NonBooleanCondition { found: f2, span: s2 },
        ) => type_eq(f1, f2) && s1 == s2,
        (
            TypeError::BranchTypeMismatch { true_path: t1, false_path: f1, span: s1 },
            TypeError::BranchTypeMismatch { true_path: t2, false_path: f2, span: s2 },
        ) => type_eq(t1, t2) && type_eq(f1, f2) && s1 == s2,
        (
            TypeError::OperandTypeMismatch { left: l1, right: r1, span: s1 },
            TypeError::OperandTypeMismatch { left: l2, right: r2, span: s2 },
        ) => type_eq(l1, l2) && type_eq(r1, r2) && s1 == s2,
        (
            TypeError::NotCallable { found: f1, span: s1 },
            TypeError::NotCallable { found: f2, span: s2 },
        ) => type_eq(f1, f2) && s1 == s2,
        (
            TypeError::ArgumentTypeMismatch { expected: e1, found: f1, span: s1 },
            TypeError::ArgumentTypeMismatch { expected: e2, found: f2, span: s2 },
        ) => type_eq(e1, e2) && type_eq(f1, f2) && s1 == s2,
        (
            TypeError::NotIndexable { found: f1, span: s1 },
            TypeError::NotIndexable { found: f2, span: s2 },
        ) => type_eq(f1, f2) && s1 == s2,
        (
            TypeError::HeterogeneousArrayElements { span: s1 },
            TypeError::HeterogeneousArrayElements { span: s2 },
        ) => s1 == s2,
        (
            TypeError::InvalidTypeSuffix { span: s1 },
            TypeError::InvalidTypeSuffix { span: s2 },
        ) => s1 == s2,
        (
            TypeError::UnboundIdentifier { span: s1 },
            TypeError::UnboundIdentifier { span: s2 },
        ) => s1 == s2,
        (
            TypeError::FunctionDefinitionInsideBlock { span: s1 },
            TypeError::FunctionDefinitionInsideBlock { span: s2 },
        ) => s1 == s2,
        _ => false,
    }
}

// ---------------------------------------------------------------------------
// Source slices and the fixed type-name table.
// ---------------------------------------------------------------------------

/// The text a span denotes.
pub open spec fn span_text(src: Seq<u8>, sp: Span) -> Seq<u8> {
    src.subrange(sp.offset as int, sp.offset + sp.len)
}

/// Copies the text of `span` out of the source buffer.
pub fn span_to_vec(source: &Vec<u8>, span: Span) -> (r: Vec<u8>)
    requires
        span.in_bounds(source@.len() as nat),
    ensures
        r@ == span_text(source@, span),
{
    let total: usize = source.len();
    let mut out: Vec<u8> = Vec::new();
    let mut i: usize = 0;
    #[verifier::loop_isolation(false)]
    while i < span.len
        invariant
            0 <= i <= span.len,
            out@.len() == i,
            forall|j: int| 0 <= j < i ==> out@[j] == source@[span.offset + j],
        decreases span.len - i,
    {
        out.push(source[span.offset + i]);
        i = i + 1;
    }
    proof {
        assert(out@ =~= span_text(source@, span));
    }
    out
}

pub open spec fn is_ty_bool(w: Seq<u8>) -> bool {
    w.len() == 4 && w[0] == 98 && w[1] == 111 && w[2] == 111 && w[3] == 108
}

pub open spec fn is_ty_isize(w: Seq<u8>) -> bool {
    w.len() == 5 && w[0] == 105 && w[1] == 115 && w[2] == 105 && w[3] == 122 && w[4] == 101
}

pub open spec fn is_ty_usize(w: Seq<u8>) -> bool {
    w.len() == 5 && w[0] == 117 && w[1] == 115 && w[2] == 105 && w[3] == 122 && w[4] == 101
}

pub open spec fn is_ty_i8(w: Seq<u8>) -> bool {
    w.len() == 2 && w[0] == 105 && w[1] == 56
}

pub open spec fn is_ty_i16(w: Seq<u8>) -> bool {
    w.len() == 3 && w[0] == 105 && w[1] == 49 && w[2] == 54
}

pub open spec fn is_ty_i32(w: Seq<u8>) -> bool {
    w.len() == 3 && w[0] == 105 && w[1] == 51 && w[2] == 50
}

pub open spec fn is_ty_i64(w: Seq<u8>) -> bool {
    w.len() == 3 && w[0] == 105 && w[1] == 54 && w[2] == 52
}

pub open spec fn is_ty_u8(w: Seq<u8>) -> bool {
    w.len() == 2 && w[0] == 117 && w[1] == 56
}

pub open spec fn is_ty_u16(w: Seq<u8>) -> bool {
    w.len() == 3 && w[0] == 117 && w[1] == 49 && w[2] == 54
}

pub open spec fn is_ty_u32(w: Seq<u8>) -> bool {
    w.len() == 3 && w[0] == 117 && w[1] == 51 && w[2] == 50
}

pub open spec fn is_ty_u64(w: Seq<u8>) -> bool {
    w.len() == 3 && w[0] == 117 && w[1] == 54 && w[2] == 52
}

/// The integer type a literal suffix names, per the fixed table
/// i8, u8, i16, u16, i32, u32, i64, u64, isize, usize.
pub open spec fn int_suffix_type(w: Seq<u8>) -> Option<LiteralIntType> {
    if is_ty_i8(w) {
        Some(LiteralIntType::Signed(IntType::I8))
    } else if is_ty_i16(w) {
        Some(LiteralIntType::Signed(IntType::I16))
    } else if is_ty_i32(w) {
        Some(LiteralIntType::Signed(IntType::I32))
    } else if is_ty_i64(w) {
        Some(LiteralIntType::Signed(IntType::I64))
    } else if is_ty_isize(w) {
        Some(LiteralIntType::Signed(IntType::ISize))
    } else if is_ty_u8(w) {
        Some(LiteralIntType::Unsigned(UIntType::U8))
    } else if is_ty_u16(w) {
        Some(LiteralIntType::Unsigned(UIntType::U16))
    } else if is_ty_u32(w) {
        Some(LiteralIntType::Unsigned(UIntType::U32))
    } else if is_ty_u64(w) {
        Some(LiteralIntType::Unsigned(UIntType::U64))
    } else if is_ty_usize(w) {
        Some(LiteralIntType::Unsigned(UIntType::USize))
    } else {
        Option::None
    }
}

/// The type of a literal whose suffix resolved to `l`; an unsuffixed literal
/// keeps the placeholder type.
pub open spec fn literal_int_type_type(l: LiteralIntType) -> Type {
    match l {
        LiteralIntType::Signed(t) => Type::Int(t),
        LiteralIntType::Unsigned(t) => Type::UInt(t),
        LiteralIntType::Unsuffixed => Type::IntegerLiteral,
    }
}

/// The type a written type name denotes: `bool`, or one of the integer type
/// names.
pub open spec fn type_name_type(w: Seq<u8>) -> Option<Type> {
    if is_ty_bool(w) {
        Some(Type::Boolean)
    } else {
        match int_suffix_type(w) {
            Some(l) => Some(literal_int_type_type(l)),
            Option::None => Option::None,
        }
    }
}

/// What a type identifier in the source resolves to.
pub open spec fn resolve_type_name(src: Seq<u8>, id: Identifier) -> Option<Type> {
    type_name_type(span_text(src, id.span))
}

/// A parameter's declared type; a parameter written without one is a
/// 32-bit signed integer, the language's default.
pub open spec fn resolve_parameter(src: Seq<u8>, p: Parameter) -> Option<Type> {
    match p.type_id {
        Some(t) => resolve_type_name(src, t),
        Option::None => Some(Type::Int(IntType::I32)),
    }
}

/// A declared return type; a function without one returns nothing.
pub open spec fn resolve_return(src: Seq<u8>, return_id: Option<Identifier>) -> Option<Type> {
    match return_id {
        Some(t) => resolve_type_name(src, t),
        Option::None => Some(Type::Void),
    }
}

/// Resolves the integer suffix `source[from..end]` against the fixed table.
fn lookup_int_suffix(source: &Vec<u8>, from: usize, end: usize) -> (r: Option<LiteralIntType>)
    requires
        from <= end <= source@.len(),
    ensures
        r == int_suffix_type(source@.subrange(from as int, end as int)),
{
    let n = end - from;
    // Type names are spelled as ASCII codes; the comment names the word.
    if n == 2 && source[from] == 105 && source[from + 1] == 56 {
        Some(LiteralIntType::Signed(IntType::I8))  // i8
    } else if n == 3 && source[from] == 105 && source[from + 1] == 49 && source[from + 2] == 54 {
        Some(LiteralIntType::Signed(IntType::I16))  // i16
    } else if n == 3 && source[from] == 105 && source[from + 1] == 51 && source[from + 2] == 50 {
        Some(LiteralIntType::Signed(IntType::I32))  // i32
    } else if n == 3 && source[from] == 105 && source[from + 1] == 54 && source[from + 2] == 52 {
        Some(LiteralIntType::Signed(IntType::I64))  // i64
    } else if n == 5 && source[from] == 105 && source[from + 1] == 115 && source[from + 2] == 105
        && source[from + 3] == 122 && source[from + 4] == 101 {
        Some(LiteralIntType::Signed(IntType::ISize))  // isize
    } else if n == 2 && source[from] == 117 && source[from + 1] == 56 {
        Some(LiteralIntType::Unsigned(UIntType::U8))  // u8
    } else if n == 3 && source[from] == 117 && source[from + 1] == 49 && source[from + 2] == 54 {
        Some(LiteralIntType::Unsigned(UIntType::U16))  // u16
    } else if n == 3 && source[from] == 117 && source[from + 1] == 51 && source[from + 2] == 50 {
        Some(LiteralIntType::Unsigned(UIntType::U32))  // u32
    } else if n == 3 && source[from] == 117 && source[from + 1] == 54 && source[from + 2] == 52 {
        Some(LiteralIntType::Unsigned(UIntType::U64))  // u64
    } else if n == 5 && source[from] == 117 && source[from + 1] == 115 && source[from + 2] == 105
        && source[from + 3] == 122 && source[from + 4] == 101 {
        Some(LiteralIntType::Unsigned(UIntType::USize))  // usize
    } else {
        Option::None
    }
}

// ---------------------------------------------------------------------------
// Function signatures and the module environment.
// ---------------------------------------------------------------------------

/// `t` is the function type a signature denotes: one parameter type per
/// declared parameter, and the declared return type.
pub open spec fn fn_signature_matches(
    src: Seq<u8>,
    t: Type,
    params: Seq<Parameter>,
    return_id: Option<Identifier>,
) -> bool {
    &&& t matches Type::Function { parameters, return_type }
    &&& parameters@.len() == params.len()
    &&& forall|i: int|
        0 <= i < params.len() ==> Some(#[trigger] parameters@[i]) == resolve_parameter(
            src,
            params[i],
        )
    &&& Some(*return_type) == resolve_return(src, return_id)
}

/// The first resolution failure in a signature, if any: an unknown parameter
/// type name, else an unknown return type name.
pub open spec fn signature_error(
    src: Seq<u8>,
    params: Seq<Parameter>,
    return_id: Option<Identifier>,
) -> Option<TypeError>
    decreases params.len(),
{
    if params.len() > 0 {
        if resolve_parameter(src, params[0]) is None {
            Some(TypeError::InvalidTypeSuffix { span: params[0].type_id->0.span })
        } else {
            signature_error(src, params.drop_first(), return_id)
        }
    } else if resolve_return(src, return_id) is None {
        Some(TypeError::InvalidTypeSuffix { span: return_id->0.span })
    } else {
        Option::None
    }
}

/// Whether a statement introduces a binding at its scope.
pub open spec fn statement_binds(st: Statement) -> bool {
    match st {
        Statement::ExternFunctionDeclaration(_) => true,
        Statement::FunctionDefinition(_) => true,
        Statement::VariableDefinition(_) => true,
        Statement::Return(_) => false,
    }
}

/// The name a binding statement declares.
pub open spec fn statement_bound_name(src: Seq<u8>, st: Statement) -> Seq<u8> {
    match st {
        Statement::ExternFunctionDeclaration(d) => span_text(src, d.id.span),
        Statement::FunctionDefinition(f) => span_text(src, f.id.span),
        Statement::VariableDefinition(v) => span_text(src, v.id.span),
        Statement::Return(_) => Seq::empty(),
    }
}

/// `v` is the type a binding statement declares for its name.
pub open spec fn statement_binding_ok(src: Seq<u8>, st: Statement, v: Type) -> bool {
    match st {
        Statement::ExternFunctionDeclaration(d) => fn_signature_matches(
            src,
            v,
            d.parameters@,
            d.return_id,
        ),
        Statement::FunctionDefinition(f) => fn_signature_matches(src, v, f.parameters@, f.return_id),
        Statement::VariableDefinition(vd) => Some(v) == resolve_type_name(src, vd.type_id),
        Statement::Return(_) => false,
    }
}

/// The resolution error a statement's declared types give, if any.
pub open spec fn statement_bind_error(src: Seq<u8>, st: Statement) -> Option<TypeError> {
    match st {
        Statement::ExternFunctionDeclaration(d) => signature_error(src, d.parameters@, d.return_id),
        Statement::FunctionDefinition(f) => signature_error(src, f.parameters@, f.return_id),
        Statement::VariableDefinition(vd) => if resolve_type_name(src, vd.type_id) is None {
            Some(TypeError::InvalidTypeSuffix { span: vd.type_id.span })
        } else {
            Option::None
        },
        Statement::Return(_) => Option::None,
    }
}

/// `m` extends `m0` by the bindings the statements declare, in source order,
/// a later binding for a name shadowing an earlier one. This is the single
/// forward pass that makes forward references and mutual recursion legal:
/// every function's signature is bound before any body is checked.
pub open spec fn env_extends(
    src: Seq<u8>,
    stmts: Seq<Statement>,
    m0: Map<Seq<u8>, Type>,
    m: Map<Seq<u8>, Type>,
) -> bool
    decreases stmts.len(),
{
    if stmts.len() == 0 {
        m == m0
    } else if statement_binds(stmts[0]) {
        exists|v: Type|
            statement_binding_ok(src, stmts[0], v) && env_extends(
                src,
                stmts.drop_first(),
                m0.insert(statement_bound_name(src, stmts[0]), v),
                m,
            )
    } else {
        env_extends(src, stmts.drop_first(), m0, m)
    }
}

/// The first type-resolution failure among the statements' declarations.
pub open spec fn env_build_error(src: Seq<u8>, stmts: Seq<Statement>) -> Option<TypeError>
    decreases stmts.len(),
{
    if stmts.len() == 0 {
        Option::None
    } else {
        match statement_bind_error(src, stmts[0]) {
            Some(e) => Some(e),
            Option::None => env_build_error(src, stmts.drop_first()),
        }
    }
}

/// The environment relation only ever adds bindings: a name bound before
/// the pass stays bound after it.
pub proof fn lemma_env_extends_preserves_keys(
    src: Seq<u8>,
    stmts: Seq<Statement>,
    m0: Map<Seq<u8>, Type>,
    m: Map<Seq<u8>, Type>,
    key: Seq<u8>,
)
    requires
        env_extends(src, stmts, m0, m),
        m0.contains_key(key),
    ensures
        m.contains_key(key),
    decreases stmts.len(),
{
    if stmts.len() > 0 {
        if statement_binds(stmts[0]) {
            let v0 = choose|v0: Type|
                statement_binding_ok(src, stmts[0], v0) && env_extends(
                    src,
                    stmts.drop_first(),
                    m0.insert(statement_bound_name(src, stmts[0]), v0),
                    m,
                );
            lemma_env_extends_preserves_keys(
                src,
                stmts.drop_first(),
                m0.insert(statement_bound_name(src, stmts[0]), v0),
                m,
                key,
            );
        } else {
            lemma_env_extends_preserves_keys(src, stmts.drop_first(), m0, m, key);
        }
    }
}

/// Forward reference: every name a module-scope statement declares is bound
/// in the environment the pass builds, wherever in the module the statement
/// stands. This is what makes calling a function before its definition, and
/// mutual recursion between functions, legal: every body is checked under an
/// environment that already holds every signature.
pub proof fn lemma_forward_reference(
    src: Seq<u8>,
    stmts: Seq<Statement>,
    m0: Map<Seq<u8>, Type>,
    m: Map<Seq<u8>, Type>,
    k: int,
)
    requires
        env_extends(src, stmts, m0, m),
        0 <= k < stmts.len(),
        statement_binds(stmts[k]),
    ensures
        m.contains_key(statement_bound_name(src, stmts[k])),
    decreases stmts.len(),
{
    if statement_binds(stmts[0]) {
        let name0 = statement_bound_name(src, stmts[0]);
        let v0 = choose|v0: Type|
            statement_binding_ok(src, stmts[0], v0) && env_extends(
                src,
                stmts.drop_first(),
                m0.insert(name0, v0),
                m,
            );
        if k == 0 {
            lemma_env_extends_preserves_keys(
                src,
                stmts.drop_first(),
                m0.insert(name0, v0),
                m,
                name0,
            );
        } else {
            assert(stmts.drop_first()[k - 1] == stmts[k]);
            lemma_forward_reference(src, stmts.drop_first(), m0.insert(name0, v0), m, k - 1);
        }
    } else {
        assert(stmts.drop_first()[k - 1] == stmts[k]);
        lemma_forward_reference(src, stmts.drop_first(), m0, m, k - 1);
    }
}

// ---------------------------------------------------------------------------
// The typing rules.
// ---------------------------------------------------------------------------


/// The type of a literal: boolean, the suffix's type, or the placeholder for
/// an unsuffixed integer; an unknown suffix is an error.
pub open spec fn tc_literal(src: Seq<u8>, l: Literal) -> Result<Type, TypeError> {
    match l {
        Literal::Boolean(_) => Ok(Type::Boolean),
        Literal::Int { literal, suffix } => match suffix {
            Option::None => Ok(Type::IntegerLiteral),
            Some(sp) => match int_suffix_type(span_text(src, sp)) {
                Some(lt) => Ok(literal_int_type_type(lt)),
                Option::None => Err(TypeError::InvalidTypeSuffix { span: sp }),
            },
        },
    }
}

/// The type of an expression under an environment, or the first error in it.
/// `fret` is the enclosing function's declared return type and name span,
/// absent at module scope.
pub open spec fn tc_expression(
    src: Seq<u8>,
    env: Map<Seq<u8>, Type>,
    fret: Option<(Type, Span)>,
    e: Expression,
) -> Result<Type, TypeError>
    decreases e, 1int,
{
    match e.kind {
        ExpressionKind::Literal(l) => tc_literal(src, l),
        ExpressionKind::Identifier(id) => {
            let name = span_text(src, id.span);
            if env.contains_key(name) {
                Ok(env[name])
            } else {
                Err(TypeError::UnboundIdentifier { span: id.span })
            }
        },
        // A unary operator keeps its operand's type.
        ExpressionKind::Unary(u) => tc_expression(src, env, fret, u.expression),
        // Both operands must agree; the result takes their common type.
        ExpressionKind::Binary(b) => tc_binary(src, env, fret, *b, e.span),
        // The condition must be boolean; the branches must agree, and the
        // result takes their common type.
        ExpressionKind::If(f) => match tc_expression(src, env, fret, f.condition) {
            Ok(tc) => if !type_eq(tc, Type::Boolean) {
                Err(TypeError::NonBooleanCondition { found: tc, span: f.condition.span })
            } else {
                match tc_expression(src, env, fret, f.true_path) {
                    Ok(tt) => match tc_expression(src, env, fret, f.false_path) {
                        Ok(tf) => match spec_unify(tt, tf) {
                            Some(t) => Ok(t),
                            Option::None => Err(
                                TypeError::BranchTypeMismatch {
                                    true_path: tt,
                                    false_path: tf,
                                    span: e.span,
                                },
                            ),
                        },
                        Err(er) => Err(er),
                    },
                    Err(er) => Err(er),
                }
            },
            Err(er) => Err(er),
        },
        // The callee must be a function, applied to one argument per
        // parameter, each agreeing with the parameter's type; the result is
        // the declared return type.
        ExpressionKind::Call(c) => match tc_expression(src, env, fret, c.callee) {
            Ok(ct) => match ct {
                Type::Function { parameters, return_type } => if c.arguments@.len()
                    != parameters@.len() {
                    Err(
                        TypeError::ArgumentTypeMismatch {
                            expected: Type::Function { parameters, return_type },
                            found: Type::Absent,
                            span: e.span,
                        },
                    )
                } else {
                    match tc_arguments(src, env, fret, c.arguments@, parameters@, 0) {
                        Some(er) => Err(er),
                        Option::None => Ok(*return_type),
                    }
                },
                _ => Err(TypeError::NotCallable { found: ct, span: c.callee.span }),
            },
            Err(er) => Err(er),
        },
        // The base must be an array; the result is its element type.
        ExpressionKind::Access(a) => match tc_expression(src, env, fret, a.base) {
            Ok(tb) => match tb {
                Type::Array { type_id, size } => match tc_expression(src, env, fret, a.offset) {
                    Ok(_) => Ok(*type_id),
                    Err(er) => Err(er),
                },
                _ => Err(TypeError::NotIndexable { found: tb, span: a.base.span }),
            },
            Err(er) => Err(er),
        },
        // All elements must share one type; an empty array has the absent
        // element type.
        ExpressionKind::Array { elements } => if elements@.len() == 0 {
            Ok(Type::Array { type_id: Box::new(Type::Absent), size: 0 })
        } else {
            match tc_expression(src, env, fret, elements@[0]) {
                Ok(t0) => match tc_array_elements(src, env, fret, elements@, 1, t0, e.span) {
                    Ok(t) => Ok(
                        Type::Array { type_id: Box::new(t), size: elements@.len() as usize },
                    ),
                    Err(er) => Err(er),
                },
                Err(er) => Err(er),
            }
        },
        ExpressionKind::Block(b) => tc_block(src, env, fret, *b, 0),
    }
}

/// The binary rule: both operands must agree in type; the result takes their
/// common type.
pub open spec fn tc_binary(
    src: Seq<u8>,
    env: Map<Seq<u8>, Type>,
    fret: Option<(Type, Span)>,
    b: BinaryExpression,
    span: Span,
) -> Result<Type, TypeError>
    decreases b, 0int,
{
    match tc_expression(src, env, fret, b.left) {
        Ok(tl) => match tc_expression(src, env, fret, b.right) {
            Ok(tr) => match spec_unify(tl, tr) {
                Some(t) => Ok(t),
                Option::None => Err(
                    TypeError::OperandTypeMismatch { left: tl, right: tr, span },
                ),
            },
            Err(er) => Err(er),
        },
        Err(er) => Err(er),
    }
}

/// Folds the common type over the array elements from index `i` on.
pub open spec fn tc_array_elements(
    src: Seq<u8>,
    env: Map<Seq<u8>, Type>,
    fret: Option<(Type, Span)>,
    elems: Seq<Expression>,
    i: int,
    acc: Type,
    span: Span,
) -> Result<Type, TypeError>
    decreases elems, elems.len() - i, 0int,
{
    if i < 0 || i >= elems.len() {
        Ok(acc)
    } else {
        match tc_expression(src, env, fret, elems[i]) {
            Ok(t) => match spec_unify(acc, t) {
                Some(u) => tc_array_elements(src, env, fret, elems, i + 1, u, span),
                Option::None => Err(TypeError::HeterogeneousArrayElements { span }),
            },
            Err(er) => Err(er),
        }
    }
}

/// Checks the arguments from index `i` on against the parameter types,
/// returning the first error.
pub open spec fn tc_arguments(
    src: Seq<u8>,
    env: Map<Seq<u8>, Type>,
    fret: Option<(Type, Span)>,
    args: Seq<Expression>,
    params: Seq<Type>,
    i: int,
) -> Option<TypeError>
    decreases args, args.len() - i, 0int,
{
    if i < 0 || i >= args.len() || i >= params.len() {
        Option::None
    } else {
        match tc_expression(src, env, fret, args[i]) {
            Ok(ta) => match spec_unify(params[i], ta) {
                Some(_) => tc_arguments(src, env, fret, args, params, i + 1),
                Option::None => Some(
                    TypeError::ArgumentTypeMismatch {
                        expected: params[i],
                        found: ta,
                        span: args[i].span,
                    },
                ),
            },
            Err(er) => Some(er),
        }
    }
}

/// The type of a block, walking its statements from index `i` on with the
/// environment extended statement by statement: a variable is visible only
/// to what follows it. The block's type is its trailing expression's, or
/// void without one. Function declarations are illegal inside blocks.
pub open spec fn tc_block(
    src: Seq<u8>,
    env: Map<Seq<u8>, Type>,
    fret: Option<(Type, Span)>,
    b: BlockExpression,
    i: int,
) -> Result<Type, TypeError>
    decreases b, b.statements@.len() - i, 0int,
{
    if i < 0 || i >= b.statements@.len() {
        match b.return_expression {
            Some(e) => tc_expression(src, env, fret, e),
            Option::None => Ok(Type::Void),
        }
    } else {
        match b.statements@[i] {
            Statement::FunctionDefinition(f) => Err(
                TypeError::FunctionDefinitionInsideBlock { span: f.id.span },
            ),
            Statement::ExternFunctionDeclaration(d) => Err(
                TypeError::FunctionDefinitionInsideBlock { span: d.id.span },
            ),
            Statement::VariableDefinition(v) => match resolve_type_name(src, v.type_id) {
                Some(tv) => match tc_expression(src, env, fret, v.initialize_expression) {
                    Ok(ti) => match spec_unify(tv, ti) {
                        Some(_) => tc_block(
                            src,
                            env.insert(span_text(src, v.id.span), tv),
                            fret,
                            b,
                            i + 1,
                        ),
                        Option::None => Err(
                            TypeError::InitializerTypeMismatch {
                                expected: tv,
                                found: ti,
                                span: v.id.span,
                            },
                        ),
                    },
                    Err(er) => Err(er),
                },
                Option::None => Err(TypeError::InvalidTypeSuffix { span: v.type_id.span }),
            },
            Statement::Return(r) => match fret {
                Option::None => Err(
                    TypeError::ReturnOutsideFunction { span: r.expression.span },
                ),
                Some((ft, fspan)) => match tc_expression(src, env, fret, r.expression) {
                    Ok(tr) => match spec_unify(ft, tr) {
                        Some(_) => tc_block(src, env, fret, b, i + 1),
                        Option::None => Err(
                            TypeError::ReturnTypeMismatch {
                                expected: ft,
                                found: tr,
                                function: fspan,
                            },
                        ),
                    },
                    Err(er) => Err(er),
                },
            },
        }
    }
}

/// The environment of a function body: the enclosing environment plus one
/// binding per parameter, in order.
pub open spec fn bind_parameters(
    src: Seq<u8>,
    m: Map<Seq<u8>, Type>,
    params: Seq<Parameter>,
) -> Map<Seq<u8>, Type>
    decreases params.len(),
{
    if params.len() == 0 {
        m
    } else {
        bind_parameters(src, m, params.drop_last()).insert(
            span_text(src, params.last().id.span),
            resolve_parameter(src, params.last())->0,
        )
    }
}

/// Checks one function definition: the body, under the parameters' scope and
/// with the declared return type as the return context, must come out at the
/// declared return type.
pub open spec fn tc_function(
    src: Seq<u8>,
    env: Map<Seq<u8>, Type>,
    f: FunctionDefinitionStatement,
) -> Result<(), TypeError> {
    match signature_error(src, f.parameters@, f.return_id) {
        Some(er) => Err(er),
        Option::None => {
            let ft = resolve_return(src, f.return_id)->0;
            let env2 = bind_parameters(src, env, f.parameters@);
            match tc_expression(src, env2, Some((ft, f.id.span)), f.body) {
                Ok(tb) => match spec_unify(ft, tb) {
                    Some(_) => Ok(()),
                    Option::None => Err(
                        TypeError::ReturnTypeMismatch {
                            expected: ft,
                            found: tb,
                            function: f.id.span,
                        },
                    ),
                },
                Err(er) => Err(er),
            }
        },
    }
}

/// Checks the module's statements from index `i` on, under the module
/// environment: function bodies against their signatures, module variables'
/// initializers against their declared types; a return statement at module
/// scope is an error.
pub open spec fn tc_module_statements(
    src: Seq<u8>,
    env: Map<Seq<u8>, Type>,
    stmts: Seq<Statement>,
    i: int,
) -> Result<(), TypeError>
    decreases stmts.len() - i,
{
    if i < 0 || i >= stmts.len() {
        Ok(())
    } else {
        match stmts[i] {
            Statement::FunctionDefinition(f) => match tc_function(src, env, *f) {
                Ok(_) => tc_module_statements(src, env, stmts, i + 1),
                Err(er) => Err(er),
            },
            Statement::ExternFunctionDeclaration(d) => match signature_error(
                src,
                d.parameters@,
                d.return_id,
            ) {
                Some(er) => Err(er),
                Option::None => tc_module_statements(src, env, stmts, i + 1),
            },
            Statement::VariableDefinition(v) => match resolve_type_name(src, v.type_id) {
                Some(tv) => match tc_expression(src, env, Option::None, v.initialize_expression) {
                    Ok(ti) => match spec_unify(tv, ti) {
                        Some(_) => tc_module_statements(src, env, stmts, i + 1),
                        Option::None => Err(
                            TypeError::InitializerTypeMismatch {
                                expected: tv,
                                found: ti,
                                span: v.id.span,
                            },
                        ),
                    },
                    Err(er) => Err(er),
                },
                Option::None => Err(TypeError::InvalidTypeSuffix { span: v.type_id.span }),
            },
            Statement::Return(r) => Err(
                TypeError::ReturnOutsideFunction { span: r.expression.span },
            ),
        }
    }
}

// ---------------------------------------------------------------------------
// Congruence: the typing rules cannot tell structurally equal types apart.
// ---------------------------------------------------------------------------

/// Reconciliation respects structural equality on both sides.
pub proof fn lemma_unify_congruence(a1: Type, a2: Type, b1: Type, b2: Type)
    requires
        type_eq(a1, a2),
        type_eq(b1, b2),
    ensures
        spec_unify(a1, b1) is Some <==> spec_unify(a2, b2) is Some,
        spec_unify(a1, b1) matches Some(t1) ==> type_eq(t1, spec_unify(a2, b2)->0),
{
    crate::ast::lemma_type_eq_symmetric(a1, a2);
    crate::ast::lemma_type_eq_symmetric(b1, b2);
    if type_eq(a1, b1) {
        crate::ast::lemma_type_eq_symmetric(a1, b1);
        crate::ast::lemma_type_eq_transitive(a2, a1, b1);
        crate::ast::lemma_type_eq_transitive(a2, b1, b2);
    }
    if type_eq(a2, b2) {
        crate::ast::lemma_type_eq_symmetric(a2, b2);
        crate::ast::lemma_type_eq_transitive(a1, a2, b2);
        crate::ast::lemma_type_eq_symmetric(b1, b2);
        crate::ast::lemma_type_eq_transitive(a1, b2, b1);
    }
}

/// Resolves the type name an identifier carries against the fixed table.
pub fn resolve_type_identifier(source: &Vec<u8>, id: &Identifier) -> (r: Result<Type, TypeError>)
    requires
        id.span.in_bounds(source@.len() as nat),
    ensures
        match r {
            Ok(t) => resolve_type_name(source@, *id) == Some(t),
            Err(e) => resolve_type_name(source@, *id) is None && type_error_eq(
                e,
                TypeError::InvalidTypeSuffix { span: id.span },
            ),
        },
{
    let total: usize = source.len();
    let from = id.span.offset;
    // bool
    if id.span.len == 4 && source[from] == 98 && source[from + 1] == 111 && source[from + 2]
        == 111 && source[from + 3] == 108 {
        return Ok(Type::Boolean);
    }
    let end = from + id.span.len;
    match lookup_int_suffix(source, from, end) {
        Some(l) => Ok(literal_int_type_to_type(l)),
        Option::None => Err(TypeError::InvalidTypeSuffix { span: id.span }),
    }
}

/// The type a resolved literal suffix stands for.
fn literal_int_type_to_type(l: LiteralIntType) -> (r: Type)
    ensures
        r == literal_int_type_type(l),
{
    match l {
        LiteralIntType::Signed(t) => Type::Int(t),
        LiteralIntType::Unsigned(t) => Type::UInt(t),
        LiteralIntType::Unsuffixed => Type::IntegerLiteral,
    }
}

/// A parameter's declared type, the 32-bit signed integer default when none
/// is written.
fn resolve_param(source: &Vec<u8>, p: &Parameter) -> (r: Result<Type, TypeError>)
    requires
        parameter_wf(*p, source@.len() as nat),
    ensures
        match r {
            Ok(t) => resolve_parameter(source@, *p) == Some(t),
            Err(e) => resolve_parameter(source@, *p) is None && (p.type_id matches Some(tid)
                && type_error_eq(e, TypeError::InvalidTypeSuffix { span: tid.span })),
        },
{
    match &p.type_id {
        Some(t) => resolve_type_identifier(source, t),
        Option::None => Ok(Type::Int(IntType::I32)),
    }
}

/// The type of a literal, per [`tc_literal`].
fn check_literal(source: &Vec<u8>, l: &Literal) -> (r: Result<Type, TypeError>)
    requires
        literal_wf(*l, source@.len() as nat),
    ensures
        match r {
            Ok(t) => tc_literal(source@, *l) == Ok::<Type, TypeError>(t),
            Err(e) => tc_literal(source@, *l) matches Err(e0) && type_error_eq(e, e0),
        },
{
    match l {
        Literal::Boolean(_) => Ok(Type::Boolean),
        Literal::Int { literal, suffix } => match suffix {
            Option::None => Ok(Type::IntegerLiteral),
            Some(sp) => {
                let total: usize = source.len();
                match lookup_int_suffix(source, sp.offset, sp.offset + sp.len) {
                    Some(lt) => Ok(literal_int_type_to_type(lt)),
                    Option::None => Err(TypeError::InvalidTypeSuffix { span: *sp }),
                }
            },
        },
    }
}

/// Builds [`Type`] values from type names written in the source.
pub struct TypeBuilder {
    pub source: Vec<u8>,
}

impl TypeBuilder {
    /// The source buffer the builder resolves names against.
    pub open spec fn src(self) -> Seq<u8> {
        self.source@
    }

    pub fn new(source: Vec<u8>) -> (r: Self)
        ensures
            r.source@ == source@,
    {
        Self { source }
    }

    /// Resolves the type name under `span` against the fixed type table.
    pub fn build_type_from_span(&self, span: Span) -> (r: Result<Type, TypeError>)
        requires
            span.in_bounds(self.source@.len() as nat),
        ensures
            match r {
                Ok(t) => type_name_type(span_text(self.source@, span)) == Some(t),
                Err(e) => type_name_type(span_text(self.source@, span)) is None && type_error_eq(
                    e,
                    TypeError::InvalidTypeSuffix { span },
                ),
            },
    {
        resolve_type_identifier(&self.source, &Identifier { span })
    }

    /// Builds the function type a signature denotes, or the signature's
    /// first resolution error.
    pub fn build_function_type(
        &self,
        parameters: &Vec<Parameter>,
        return_id: &Option<Identifier>,
    ) -> (r: Result<Type, TypeError>)
        requires
            forall|i: int|
                0 <= i < parameters@.len() ==> parameter_wf(
                    #[trigger] parameters@[i],
                    self.source@.len() as nat,
                ),
            return_id matches Some(t) ==> t.span.in_bounds(self.source@.len() as nat),
        ensures
            match r {
                Ok(t) => signature_error(self.src(), parameters@, *return_id) is None
                    && fn_signature_matches(self.src(), t, parameters@, *return_id),
                Err(e) => signature_error(self.src(), parameters@, *return_id) matches Some(e0)
                    && type_error_eq(e, e0),
            },
    {
        build_signature_type(&self.source, parameters, return_id)
    }
}

// ---------------------------------------------------------------------------
// The typed tree mirrors the syntax tree.
// ---------------------------------------------------------------------------

/// The typed node is the checked counterpart of the syntax node: the same
/// shape, the literal and the operator preserved, every child in place and
/// itself mirrored. The types the nodes carry are fixed separately, by the
/// typing rules.
pub open spec fn expr_mirrors(ire: ir::Expression, e: Expression) -> bool
    decreases e,
{
    match e.kind {
        ExpressionKind::Literal(l) => {
            &&& ire matches ir::Expression::Literal(il)
            &&& il.literal == l
        },
        ExpressionKind::Identifier(id) => {
            &&& ire matches ir::Expression::Identifier { id: out, .. }
            &&& out == id
        },
        ExpressionKind::Unary(u) => {
            &&& ire matches ir::Expression::Unary { operator, expression, .. }
            &&& operator == u.operator
            &&& expr_mirrors(*expression, u.expression)
        },
        ExpressionKind::Binary(b) => {
            &&& ire matches ir::Expression::Binary(ib)
            &&& binary_mirrors(*ib, *b)
        },
        ExpressionKind::If(f) => {
            &&& ire matches ir::Expression::If { condition, true_path, false_path, .. }
            &&& expr_mirrors(*condition, f.condition)
            &&& expr_mirrors(*true_path, f.true_path)
            &&& expr_mirrors(*false_path, f.false_path)
        },
        ExpressionKind::Call(c) => {
            &&& ire matches ir::Expression::Call { callee, arguments, .. }
            &&& expr_mirrors(*callee, c.callee)
            &&& arguments@.len() == c.arguments@.len()
            &&& forall|k: int|
                0 <= k < arguments@.len() ==> expr_mirrors(
                    #[trigger] arguments@[k],
                    c.arguments@[k],
                )
        },
        ExpressionKind::Access(a) => {
            &&& ire matches ir::Expression::Access { base, offset, .. }
            &&& expr_mirrors(*base, a.base)
            &&& expr_mirrors(*offset, a.offset)
        },
        ExpressionKind::Array { elements } => {
            &&& ire matches ir::Expression::Array { elements: out, .. }
            &&& out@.len() == elements@.len()
            &&& forall|k: int|
                0 <= k < out@.len() ==> expr_mirrors(#[trigger] out@[k], elements@[k])
        },
        ExpressionKind::Block(b) => {
            &&& ire matches ir::Expression::Block(ib)
            &&& block_mirrors(*ib, *b)
        },
    }
}

/// The typed binary node keeps the operator and holds the two checked
/// operands in place.
pub open spec fn binary_mirrors(ib: ir::BinaryExpression, b: BinaryExpression) -> bool
    decreases b,
{
    &&& ib.operator == b.operator
    &&& expr_mirrors(ib.lhs, b.left)
    &&& expr_mirrors(ib.rhs, b.right)
}

/// The typed statement is the checked counterpart of the syntax statement,
/// its name kept and its expression mirrored.
pub open spec fn statement_mirrors(ist: ir::Statement, st: Statement) -> bool
    decreases st,
{
    match st {
        Statement::VariableDefinition(v) => {
            &&& ist matches ir::Statement::VariableDefinition { id, initialize_expression, .. }
            &&& id == v.id
            &&& expr_mirrors(initialize_expression, v.initialize_expression)
        },
        Statement::Return(rr) => {
            &&& ist matches ir::Statement::Return { expression }
            &&& expr_mirrors(expression, rr.expression)
        },
        _ => false,
    }
}

/// The typed block keeps one checked statement per statement, in order, and
/// the checked trailing expression exactly when there is one.
pub open spec fn block_mirrors(ib: ir::BlockExpression, b: BlockExpression) -> bool
    decreases b,
{
    &&& ib.statements@.len() == b.statements@.len()
    &&& forall|k: int|
        0 <= k < b.statements@.len() ==> statement_mirrors(
            #[trigger] ib.statements@[k],
            b.statements@[k],
        )
    &&& match b.return_expression {
        Some(e) => ib.return_expression matches Some(ie) && expr_mirrors(ie, e),
        Option::None => ib.return_expression is None,
    }
}

// ---------------------------------------------------------------------------
// The executable checker.
// ---------------------------------------------------------------------------


/// Checks one expression against the environment and produces its typed
/// counterpart. Follows the typing rule [`tc_expression`] exactly: it
/// succeeds if and only if the rule does, the produced node carries a type
/// structurally equal to the rule's, and on failure the error equals the
/// rule's. The environment is left as it was found.
pub fn typecheck_expression(
    source: &Vec<u8>,
    env: &mut Environment,
    fret: &Option<(Type, Span)>,
    expr: &Expression,
) -> (r: Result<ir::Expression, TypeError>)
    requires
        expression_wf(*expr, source@.len() as nat),
    ensures
        final(env).table@ == old(env).table@,
        final(env).father == old(env).father,
        final(env).as_map() == old(env).as_map(),
        (r is Ok) == (tc_expression(source@, old(env).as_map(), *fret, *expr) is Ok),
        r matches Ok(ire) ==> type_eq(
            ire.spec_type(),
            tc_expression(source@, old(env).as_map(), *fret, *expr)->Ok_0,
        ) && expr_mirrors(ire, *expr),
        r matches Err(e) ==> type_error_eq(
            e,
            tc_expression(source@, old(env).as_map(), *fret, *expr)->Err_0,
        ),
    decreases *expr, 1int,
{
    let ghost src = source@;
    let ghost m = env.as_map();
    match &expr.kind {
        ExpressionKind::Literal(l) => match check_literal(source, l) {
            Ok(t) => {
                proof {
                    crate::ast::lemma_type_eq_reflexive(t);
                }
                Ok(ir::Expression::Literal(ir::Literal::new(*l, t)))
            },
            Err(e) => Err(e),
        },
        ExpressionKind::Identifier(id) => {
            let name = span_to_vec(source, id.span);
            match env.get(&name) {
                Some(t) => {
                    let ty = t.deep_clone();
                    Ok(ir::Expression::Identifier { type_: ty, id: *id })
                },
                Option::None => Err(TypeError::UnboundIdentifier { span: id.span }),
            }
        },
        ExpressionKind::Unary(u) => match typecheck_expression(source, env, fret, &u.expression) {
            Ok(inner) => {
                let ty = inner.type_();
                proof {
                    crate::ast::lemma_type_eq_transitive(
                        ty,
                        inner.spec_type(),
                        tc_expression(src, m, *fret, u.expression)->Ok_0,
                    );
                }
                Ok(
                    ir::Expression::Unary {
                        type_: ty,
                        operator: u.operator,
                        expression: Box::new(inner),
                    },
                )
            },
            Err(e) => Err(e),
        },
        ExpressionKind::Binary(b) => match typecheck_binary_expression(
            source,
            env,
            fret,
            b,
            expr.span,
        ) {
            Ok(bin) => Ok(ir::Expression::Binary(Box::new(bin))),
            Err(e) => Err(e),
        },
        ExpressionKind::If(f) => {
            let condition = match typecheck_expression(source, env, fret, &f.condition) {
                Ok(c) => c,
                Err(e) => {
                    return Err(e);
                },
            };
            let ct = condition.type_();
            proof {
                crate::ast::lemma_type_eq_transitive(
                    ct,
                    condition.spec_type(),
                    tc_expression(src, m, *fret, f.condition)->Ok_0,
                );
            }
            if !matches!(ct, Type::Boolean) {
                return Err(TypeError::NonBooleanCondition { found: ct, span: f.condition.span });
            }
            let true_path = match typecheck_expression(source, env, fret, &f.true_path) {
                Ok(t) => t,
                Err(e) => {
                    return Err(e);
                },
            };
            let false_path = match typecheck_expression(source, env, fret, &f.false_path) {
                Ok(t) => t,
                Err(e) => {
                    return Err(e);
                },
            };
            let tt = true_path.type_();
            let tf = false_path.type_();
            let ghost stt = tc_expression(src, m, *fret, f.true_path)->Ok_0;
            let ghost stf = tc_expression(src, m, *fret, f.false_path)->Ok_0;
            proof {
                crate::ast::lemma_type_eq_transitive(tt, true_path.spec_type(), stt);
                crate::ast::lemma_type_eq_transitive(tf, false_path.spec_type(), stf);
                lemma_unify_congruence(tt, stt, tf, stf);
            }
            match unify(&tt, &tf) {
                Some(t) => {
                    proof {
                        crate::ast::lemma_type_eq_transitive(
                            t,
                            spec_unify(tt, tf)->0,
                            spec_unify(stt, stf)->0,
                        );
                    }
                    Ok(
                    ir::Expression::If {
                        type_: t,
                        condition: Box::new(condition),
                        true_path: Box::new(true_path),
                        false_path: Box::new(false_path),
                    },
                )
                },
                Option::None => Err(
                    TypeError::BranchTypeMismatch { true_path: tt, false_path: tf, span: expr.span },
                ),
            }
        },
        ExpressionKind::Call(c) => {
            let callee = match typecheck_expression(source, env, fret, &c.callee) {
                Ok(t) => t,
                Err(e) => {
                    return Err(e);
                },
            };
            let ct = callee.type_();
            let ghost sct = tc_expression(src, m, *fret, c.callee)->Ok_0;
            proof {
                crate::ast::lemma_type_eq_transitive(ct, callee.spec_type(), sct);
            }
            match ct {
                Type::Function { parameters, return_type } => {
                    if c.arguments.len() != parameters.len() {
                        return Err(
                            TypeError::ArgumentTypeMismatch {
                                expected: Type::Function { parameters, return_type },
                                found: Type::Absent,
                                span: expr.span,
                            },
                        );
                    }
                    let ghost sparams = sct->Function_parameters;
                    let mut arguments: Vec<ir::Expression> = Vec::new();
                    let mut i: usize = 0;
                    #[verifier::loop_isolation(false)]
                    while i < c.arguments.len()
                        invariant
                            0 <= i <= c.arguments@.len(),
                            arguments@.len() == i,
                            env.table@ == old(env).table@,
                            env.father == old(env).father,
                            env.as_map() == m,
                            forall|k: int|
                                0 <= k < i ==> expr_mirrors(
                                    #[trigger] arguments@[k],
                                    c.arguments@[k],
                                ),
                            tc_arguments(src, m, *fret, c.arguments@, sparams@, 0)
                                == tc_arguments(src, m, *fret, c.arguments@, sparams@, i as int),
                        decreases c.arguments@.len() - i,
                    {
                        let arg = match typecheck_expression(source, env, fret, &c.arguments[i]) {
                            Ok(a) => a,
                            Err(e) => {
                                return Err(e);
                            },
                        };
                        let ta = arg.type_();
                        proof {
                            let sta = tc_expression(src, m, *fret, c.arguments@[i as int])->Ok_0;
                            crate::ast::lemma_type_eq_transitive(ta, arg.spec_type(), sta);
                            assert(type_eq(parameters@[i as int], sparams@[i as int]));
                            lemma_unify_congruence(parameters@[i as int], sparams@[i as int], ta, sta);
                        }
                        match unify(&parameters[i], &ta) {
                            Some(_) => arguments.push(arg),
                            Option::None => {
                                let expected = parameters[i].deep_clone();
                                proof {
                                    crate::ast::lemma_type_eq_transitive(
                                        expected,
                                        parameters@[i as int],
                                        sparams@[i as int],
                                    );
                                }
                                return Err(
                                    TypeError::ArgumentTypeMismatch {
                                        expected,
                                        found: ta,
                                        span: c.arguments[i].span,
                                    },
                                );
                            },
                        }
                        i = i + 1;
                    }
                    proof {
                        assert(type_eq(*return_type, *sct->Function_return_type));
                    }
                    Ok(
                        ir::Expression::Call {
                            type_: *return_type,
                            callee: Box::new(callee),
                            arguments,
                        },
                    )
                },
                _ => Err(TypeError::NotCallable { found: ct, span: c.callee.span }),
            }
        },
        ExpressionKind::Access(a) => {
            let base = match typecheck_expression(source, env, fret, &a.base) {
                Ok(b) => b,
                Err(e) => {
                    return Err(e);
                },
            };
            let tb = base.type_();
            let ghost stb = tc_expression(src, m, *fret, a.base)->Ok_0;
            proof {
                crate::ast::lemma_type_eq_transitive(tb, base.spec_type(), stb);
            }
            match tb {
                Type::Array { type_id, size } => {
                    let offset = match typecheck_expression(source, env, fret, &a.offset) {
                        Ok(o) => o,
                        Err(e) => {
                            return Err(e);
                        },
                    };
                    Ok(
                        ir::Expression::Access {
                            type_: *type_id,
                            base: Box::new(base),
                            offset: Box::new(offset),
                        },
                    )
                },
                _ => Err(TypeError::NotIndexable { found: tb, span: a.base.span }),
            }
        },
        ExpressionKind::Array { elements } => {
            if elements.len() == 0 {
                let ety = Type::Array { type_id: Box::new(Type::Absent), size: 0 };
                proof {
                    crate::ast::lemma_type_eq_reflexive(ety);
                }
                return Ok(ir::Expression::Array { type_: ety, elements: Vec::new() });
            }
            let first = match typecheck_expression(source, env, fret, &elements[0]) {
                Ok(f) => f,
                Err(e) => {
                    return Err(e);
                },
            };
            let mut acc = first.type_();
            let ghost mut sacc = tc_expression(src, m, *fret, elements@[0])->Ok_0;
            proof {
                crate::ast::lemma_type_eq_transitive(acc, first.spec_type(), sacc);
            }
            let mut out: Vec<ir::Expression> = Vec::new();
            out.push(first);
            let mut i: usize = 1;
            #[verifier::loop_isolation(false)]
            while i < elements.len()
                invariant
                    1 <= i <= elements@.len(),
                    out@.len() == i,
                    forall|k: int|
                        0 <= k < i ==> expr_mirrors(#[trigger] out@[k], elements@[k]),
                    env.table@ == old(env).table@,
                    env.father == old(env).father,
                    env.as_map() == m,
                    type_eq(acc, sacc),
                    tc_array_elements(src, m, *fret, elements@, 1, tc_expression(src, m, *fret, elements@[0])->Ok_0, expr.span)
                        == tc_array_elements(src, m, *fret, elements@, i as int, sacc, expr.span),
                decreases elements@.len() - i,
            {
                let elem = match typecheck_expression(source, env, fret, &elements[i]) {
                    Ok(x) => x,
                    Err(e) => {
                        return Err(e);
                    },
                };
                let te = elem.type_();
                proof {
                    let ste = tc_expression(src, m, *fret, elements@[i as int])->Ok_0;
                    crate::ast::lemma_type_eq_transitive(te, elem.spec_type(), ste);
                    lemma_unify_congruence(acc, sacc, te, ste);
                }
                match unify(&acc, &te) {
                    Some(u) => {
                        proof {
                            let ste = tc_expression(src, m, *fret, elements@[i as int])->Ok_0;
                            crate::ast::lemma_type_eq_transitive(
                                u,
                                spec_unify(acc, te)->0,
                                spec_unify(sacc, ste)->0,
                            );
                            sacc = spec_unify(sacc, ste)->0;
                        }
                        acc = u;
                        out.push(elem);
                    },
                    Option::None => {
                        return Err(TypeError::HeterogeneousArrayElements { span: expr.span });
                    },
                }
                i = i + 1;
            }
            let n = elements.len();
            let aty = Type::Array { type_id: Box::new(acc), size: n };
            Ok(ir::Expression::Array { type_: aty, elements: out })
        },
        ExpressionKind::Block(b) => match typecheck_block(source, env, fret, b) {
            Ok(blk) => Ok(ir::Expression::Block(Box::new(blk))),
            Err(e) => Err(e),
        },
    }
}

/// Checks a binary expression per [`tc_binary`]: both operands, then their
/// common type, which the produced node carries.
pub fn typecheck_binary_expression(
    source: &Vec<u8>,
    env: &mut Environment,
    fret: &Option<(Type, Span)>,
    bin: &BinaryExpression,
    span: Span,
) -> (r: Result<ir::BinaryExpression, TypeError>)
    requires
        expression_wf(bin.left, source@.len() as nat),
        expression_wf(bin.right, source@.len() as nat),
    ensures
        final(env).table@ == old(env).table@,
        final(env).father == old(env).father,
        final(env).as_map() == old(env).as_map(),
        (r is Ok) == (tc_binary(source@, old(env).as_map(), *fret, *bin, span) is Ok),
        r matches Ok(irb) ==> type_eq(
            irb.type_,
            tc_binary(source@, old(env).as_map(), *fret, *bin, span)->Ok_0,
        ) && binary_mirrors(irb, *bin),
        r matches Err(e) ==> type_error_eq(
            e,
            tc_binary(source@, old(env).as_map(), *fret, *bin, span)->Err_0,
        ),
    decreases *bin, 0int,
{
    let ghost src = source@;
    let ghost m = env.as_map();
    let lhs = match typecheck_expression(source, env, fret, &bin.left) {
        Ok(l) => l,
        Err(e) => {
            return Err(e);
        },
    };
    let rhs = match typecheck_expression(source, env, fret, &bin.right) {
        Ok(x) => x,
        Err(e) => {
            return Err(e);
        },
    };
    let tl = lhs.type_();
    let tr = rhs.type_();
    let ghost stl = tc_expression(src, m, *fret, bin.left)->Ok_0;
    let ghost str_ = tc_expression(src, m, *fret, bin.right)->Ok_0;
    proof {
        crate::ast::lemma_type_eq_transitive(tl, lhs.spec_type(), stl);
        crate::ast::lemma_type_eq_transitive(tr, rhs.spec_type(), str_);
        lemma_unify_congruence(tl, stl, tr, str_);
    }
    match unify(&tl, &tr) {
        Some(t) => {
            proof {
                crate::ast::lemma_type_eq_transitive(
                    t,
                    spec_unify(tl, tr)->0,
                    spec_unify(stl, str_)->0,
                );
            }
            Ok(ir::BinaryExpression { type_: t, operator: bin.operator, lhs, rhs })
        },
        Option::None => Err(TypeError::OperandTypeMismatch { left: tl, right: tr, span }),
    }
}

/// Checks a block per [`tc_block`]: statements in order, each variable
/// definition extending the scope for what follows it, then the trailing
/// expression, whose type the block takes; the scope is truncated back on
/// the way out, so the environment is left as it was found.
pub fn typecheck_block(
    source: &Vec<u8>,
    env: &mut Environment,
    fret: &Option<(Type, Span)>,
    block: &BlockExpression,
) -> (r: Result<ir::BlockExpression, TypeError>)
    requires
        crate::ast::block_wf(*block, source@.len() as nat),
    ensures
        final(env).table@ == old(env).table@,
        final(env).father == old(env).father,
        final(env).as_map() == old(env).as_map(),
        (r is Ok) == (tc_block(source@, old(env).as_map(), *fret, *block, 0) is Ok),
        r matches Ok(irb) ==> type_eq(
            irb.type_,
            tc_block(source@, old(env).as_map(), *fret, *block, 0)->Ok_0,
        ) && block_mirrors(irb, *block),
        r matches Err(e) ==> type_error_eq(
            e,
            tc_block(source@, old(env).as_map(), *fret, *block, 0)->Err_0,
        ),
    decreases *block, 0int,
{
    let ghost src = source@;
    let ghost m0 = env.as_map();
    let mark = env.table.len();
    let mut out_stmts: Vec<ir::Statement> = Vec::new();
    let mut i: usize = 0;
    #[verifier::loop_isolation(false)]
    while i < block.statements.len()
        invariant
            0 <= i <= block.statements@.len(),
            env.father == old(env).father,
            env.table@.len() >= mark,
            env.table@.subrange(0, mark as int) == old(env).table@,
            mark == old(env).table@.len(),
            out_stmts@.len() == i,
            forall|k: int|
                0 <= k < i ==> statement_mirrors(
                    #[trigger] out_stmts@[k],
                    block.statements@[k],
                ),
            tc_block(src, m0, *fret, *block, 0) == tc_block(
                src,
                env.as_map(),
                *fret,
                *block,
                i as int,
            ),
        decreases block.statements@.len() - i,
    {
        let ghost mi = env.as_map();
        match &block.statements[i] {
            Statement::FunctionDefinition(f) => {
                env.table.truncate(mark);
                return Err(TypeError::FunctionDefinitionInsideBlock { span: f.id.span });
            },
            Statement::ExternFunctionDeclaration(d) => {
                env.table.truncate(mark);
                return Err(TypeError::FunctionDefinitionInsideBlock { span: d.id.span });
            },
            Statement::VariableDefinition(v) => {
                let tv = match resolve_type_identifier(source, &v.type_id) {
                    Ok(t) => t,
                    Err(e) => {
                        env.table.truncate(mark);
                        return Err(e);
                    },
                };
                let init = match typecheck_expression(
                    source,
                    env,
                    fret,
                    &v.initialize_expression,
                ) {
                    Ok(x) => x,
                    Err(e) => {
                        env.table.truncate(mark);
                        return Err(e);
                    },
                };
                let ti = init.type_();
                proof {
                    let sti = tc_expression(src, mi, *fret, v.initialize_expression)->Ok_0;
                    crate::ast::lemma_type_eq_transitive(ti, init.spec_type(), sti);
                    crate::ast::lemma_type_eq_reflexive(tv);
                    lemma_unify_congruence(tv, tv, ti, sti);
                }
                match unify(&tv, &ti) {
                    Some(_) => {},
                    Option::None => {
                        env.table.truncate(mark);
                        return Err(
                            TypeError::InitializerTypeMismatch {
                                expected: tv,
                                found: ti,
                                span: v.id.span,
                            },
                        );
                    },
                }
                let name = span_to_vec(source, v.id.span);
                let ir_ty = tv.deep_clone();
                out_stmts.push(
                    ir::Statement::VariableDefinition {
                        id: v.id,
                        type_: ir_ty,
                        initialize_expression: init,
                    },
                );
                env.insert(name, tv);
                proof {
                    assert(env.table@.subrange(0, mark as int) =~= old(env).table@);
                }
            },
            Statement::Return(rs) => match fret {
                Option::None => {
                    env.table.truncate(mark);
                    return Err(
                        TypeError::ReturnOutsideFunction { span: rs.expression.span },
                    );
                },
                Some((ft, fspan)) => {
                    let rexp = match typecheck_expression(source, env, fret, &rs.expression) {
                        Ok(x) => x,
                        Err(e) => {
                            env.table.truncate(mark);
                            return Err(e);
                        },
                    };
                    let tr = rexp.type_();
                    proof {
                        let str_ = tc_expression(src, mi, *fret, rs.expression)->Ok_0;
                        crate::ast::lemma_type_eq_transitive(tr, rexp.spec_type(), str_);
                        crate::ast::lemma_type_eq_reflexive(*ft);
                        lemma_unify_congruence(*ft, *ft, tr, str_);
                    }
                    match unify(ft, &tr) {
                        Some(_) => out_stmts.push(ir::Statement::Return { expression: rexp }),
                        Option::None => {
                            let expected = ft.deep_clone();
                            env.table.truncate(mark);
                            return Err(
                                TypeError::ReturnTypeMismatch {
                                    expected,
                                    found: tr,
                                    function: *fspan,
                                },
                            );
                        },
                    }
                },
            },
        }
        i = i + 1;
    }
    match &block.return_expression {
        Some(e) => {
            let ir_e = match typecheck_expression(source, env, fret, e) {
                Ok(x) => x,
                Err(er) => {
                    env.table.truncate(mark);
                    return Err(er);
                },
            };
            let ty = ir_e.type_();
            proof {
                crate::ast::lemma_type_eq_transitive(
                    ty,
                    ir_e.spec_type(),
                    tc_block(src, m0, *fret, *block, 0)->Ok_0,
                );
            }
            env.table.truncate(mark);
            proof {
                assert(env.table@ =~= old(env).table@);
            }
            Ok(
                ir::BlockExpression {
                    type_: ty,
                    statements: out_stmts,
                    return_expression: Some(ir_e),
                },
            )
        },
        Option::None => {
            env.table.truncate(mark);
            proof {
                assert(env.table@ =~= old(env).table@);
                crate::ast::lemma_type_eq_reflexive(Type::Void);
            }
            Ok(
                ir::BlockExpression {
                    type_: Type::Void,
                    statements: out_stmts,
                    return_expression: Option::None,
                },
            )
        },
    }
}

// ---------------------------------------------------------------------------
// Module-level checking.
// ---------------------------------------------------------------------------

/// The typed function is the checked counterpart of the definition: the
/// same name, one parameter per declared parameter with its name kept and
/// its resolved type, the declared return type, and a body that mirrors the
/// definition's body.
pub open spec fn function_checked(
    src: Seq<u8>,
    env: Map<Seq<u8>, Type>,
    func: ir::Function,
    f: FunctionDefinitionStatement,
) -> bool {
    &&& func.id == f.id
    &&& func.parameters@.len() == f.parameters@.len()
    &&& forall|k: int|
        0 <= k < f.parameters@.len() ==> (#[trigger] func.parameters@[k]).0 == f.parameters@[k].id
            && type_eq(func.parameters@[k].1, resolve_parameter(src, f.parameters@[k])->0)
    &&& type_eq(func.return_type, resolve_return(src, f.return_id)->0)
    &&& expr_mirrors(func.body, f.body)
    &&& type_eq(
        func.body.spec_type(),
        tc_expression(
            src,
            bind_parameters(src, env, f.parameters@),
            Some((resolve_return(src, f.return_id)->0, f.id.span)),
            f.body,
        )->Ok_0,
    )
}

/// The function definitions among the statements, in source order.
pub open spec fn fn_defs(stmts: Seq<Statement>) -> Seq<FunctionDefinitionStatement>
    decreases stmts.len(),
{
    if stmts.len() == 0 {
        Seq::empty()
    } else {
        let rest = fn_defs(stmts.drop_last());
        match stmts.last() {
            Statement::FunctionDefinition(f) => rest.push(*f),
            _ => rest,
        }
    }
}

/// Extending a statement sequence by one statement extends the environment
/// relation by that statement's binding.
proof fn lemma_env_extends_push(
    src: Seq<u8>,
    stmts: Seq<Statement>,
    m0: Map<Seq<u8>, Type>,
    m: Map<Seq<u8>, Type>,
    st: Statement,
    v: Type,
)
    requires
        env_extends(src, stmts, m0, m),
        statement_binds(st) ==> statement_binding_ok(src, st, v),
    ensures
        env_extends(
            src,
            stmts.push(st),
            m0,
            if statement_binds(st) {
                m.insert(statement_bound_name(src, st), v)
            } else {
                m
            },
        ),
    decreases stmts.len(),
{
    let target = if statement_binds(st) {
        m.insert(statement_bound_name(src, st), v)
    } else {
        m
    };
    if stmts.len() == 0 {
        assert(stmts.push(st)[0] == st);
        assert(stmts.push(st).drop_first() =~= Seq::<Statement>::empty());
        if statement_binds(st) {
            assert(statement_binding_ok(src, stmts.push(st)[0], v) && env_extends(
                src,
                stmts.push(st).drop_first(),
                m0.insert(statement_bound_name(src, stmts.push(st)[0]), v),
                target,
            ));
        } else {
            assert(env_extends(src, stmts.push(st).drop_first(), m0, target));
        }
    } else {
        assert(stmts.push(st)[0] == stmts[0]);
        assert(stmts.push(st).drop_first() =~= stmts.drop_first().push(st));
        if statement_binds(stmts[0]) {
            let v0 = choose|v0: Type|
                statement_binding_ok(src, stmts[0], v0) && env_extends(
                    src,
                    stmts.drop_first(),
                    m0.insert(statement_bound_name(src, stmts[0]), v0),
                    m,
                );
            lemma_env_extends_push(
                src,
                stmts.drop_first(),
                m0.insert(statement_bound_name(src, stmts[0]), v0),
                m,
                st,
                v,
            );
            assert(statement_binding_ok(src, stmts.push(st)[0], v0) && env_extends(
                src,
                stmts.push(st).drop_first(),
                m0.insert(statement_bound_name(src, stmts.push(st)[0]), v0),
                target,
            ));
        } else {
            lemma_env_extends_push(src, stmts.drop_first(), m0, m, st, v);
        }
    }
}

/// Builds the function type a signature denotes, or its first resolution
/// error.
fn build_signature_type(
    source: &Vec<u8>,
    parameters: &Vec<Parameter>,
    return_id: &Option<Identifier>,
) -> (r: Result<Type, TypeError>)
    requires
        forall|i: int|
            0 <= i < parameters@.len() ==> parameter_wf(
                #[trigger] parameters@[i],
                source@.len() as nat,
            ),
        return_id matches Some(t) ==> t.span.in_bounds(source@.len() as nat),
    ensures
        match r {
            Ok(t) => signature_error(source@, parameters@, *return_id) is None
                && fn_signature_matches(source@, t, parameters@, *return_id),
            Err(e) => signature_error(source@, parameters@, *return_id) matches Some(e0)
                && type_error_eq(e, e0),
        },
{
    let ghost src = source@;
    proof {
        assert(parameters@.skip(0) =~= parameters@);
    }
    let mut tys: Vec<Type> = Vec::new();
    let mut i: usize = 0;
    #[verifier::loop_isolation(false)]
    while i < parameters.len()
        invariant
            0 <= i <= parameters@.len(),
            tys@.len() == i,
            forall|j: int|
                0 <= j < i ==> Some(#[trigger] tys@[j]) == resolve_parameter(src, parameters@[j]),
            signature_error(src, parameters@, *return_id) == signature_error(
                src,
                parameters@.skip(i as int),
                *return_id,
            ),
        decreases parameters@.len() - i,
    {
        proof {
            assert(parameters@.skip(i as int).drop_first() =~= parameters@.skip(i as int + 1));
            assert(parameters@.skip(i as int)[0] == parameters@[i as int]);
        }
        match resolve_param(source, &parameters[i]) {
            Ok(t) => tys.push(t),
            Err(e) => {
                return Err(e);
            },
        }
        i = i + 1;
    }
    proof {
        assert(parameters@.skip(parameters@.len() as int) =~= Seq::<Parameter>::empty());
    }
    let rt = match return_id {
        Some(t) => match resolve_type_identifier(source, t) {
            Ok(t2) => t2,
            Err(e) => {
                return Err(e);
            },
        },
        Option::None => Type::Void,
    };
    Ok(Type::Function { parameters: tys, return_type: Box::new(rt) })
}

/// Builds the module environment: one forward pass over the statements,
/// binding every function's signature and every module variable's declared
/// type, so that later bodies may refer to any of them.
fn build_module_environment(source: &Vec<u8>, module: &ModuleStatement) -> (r: Result<
    Environment,
    TypeError,
>)
    requires
        module_wf(*module, source@.len() as nat),
    ensures
        match r {
            Ok(env) => env_build_error(source@, module.statements@) is None && env.father is None
                && env_extends(
                source@,
                module.statements@,
                Map::<Seq<u8>, Type>::empty(),
                env.as_map(),
            ),
            Err(e) => env_build_error(source@, module.statements@) matches Some(e0)
                && type_error_eq(e, e0),
        },
{
    let ghost src = source@;
    let ghost stmts = module.statements@;
    let mut env = Environment::new();
    proof {
        assert(stmts.skip(0) =~= stmts);
        assert(stmts.take(0) =~= Seq::<Statement>::empty());
    }
    let mut i: usize = 0;
    #[verifier::loop_isolation(false)]
    while i < module.statements.len()
        invariant
            0 <= i <= stmts.len(),
            env.father is None,
            env_extends(src, stmts.take(i as int), Map::<Seq<u8>, Type>::empty(), env.as_map()),
            env_build_error(src, stmts) == env_build_error(src, stmts.skip(i as int)),
        decreases stmts.len() - i,
    {
        proof {
            assert(statement_wf(stmts[i as int], source@.len() as nat));
            assert(stmts.skip(i as int)[0] == stmts[i as int]);
            assert(stmts.skip(i as int).drop_first() =~= stmts.skip(i as int + 1));
            assert(stmts.take(i as int).push(stmts[i as int]) =~= stmts.take(i as int + 1));
        }
        let ghost m_before = env.as_map();
        match &module.statements[i] {
            Statement::ExternFunctionDeclaration(d) => {
                let ty = match build_signature_type(source, &d.parameters, &d.return_id) {
                    Ok(t) => t,
                    Err(e) => {
                        return Err(e);
                    },
                };
                let name = span_to_vec(source, d.id.span);
                proof {
                    lemma_env_extends_push(
                        src,
                        stmts.take(i as int),
                        Map::<Seq<u8>, Type>::empty(),
                        m_before,
                        stmts[i as int],
                        ty,
                    );
                }
                env.insert(name, ty);
            },
            Statement::FunctionDefinition(f) => {
                let ty = match build_signature_type(source, &f.parameters, &f.return_id) {
                    Ok(t) => t,
                    Err(e) => {
                        return Err(e);
                    },
                };
                let name = span_to_vec(source, f.id.span);
                proof {
                    lemma_env_extends_push(
                        src,
                        stmts.take(i as int),
                        Map::<Seq<u8>, Type>::empty(),
                        m_before,
                        stmts[i as int],
                        ty,
                    );
                }
                env.insert(name, ty);
            },
            Statement::VariableDefinition(v) => {
                let ty = match resolve_type_identifier(source, &v.type_id) {
                    Ok(t) => t,
                    Err(e) => {
                        return Err(e);
                    },
                };
                let name = span_to_vec(source, v.id.span);
                proof {
                    lemma_env_extends_push(
                        src,
                        stmts.take(i as int),
                        Map::<Seq<u8>, Type>::empty(),
                        m_before,
                        stmts[i as int],
                        ty,
                    );
                }
                env.insert(name, ty);
            },
            Statement::Return(_) => {
                proof {
                    lemma_env_extends_push(
                        src,
                        stmts.take(i as int),
                        Map::<Seq<u8>, Type>::empty(),
                        m_before,
                        stmts[i as int],
                        Type::Void,
                    );
                }
            },
        }
        i = i + 1;
    }
    proof {
        assert(stmts.take(stmts.len() as int) =~= stmts);
        assert(stmts.skip(stmts.len() as int) =~= Seq::<Statement>::empty());
    }
    Ok(env)
}

/// Checks one function definition per [`tc_function`] and produces its typed
/// form. The environment is left as it was found.
fn check_function(source: &Vec<u8>, env: &mut Environment, f: &FunctionDefinitionStatement) -> (r:
    Result<ir::Function, TypeError>)
    requires
        statement_wf(Statement::FunctionDefinition(Box::new(*f)), source@.len() as nat),
    ensures
        final(env).table@ == old(env).table@,
        final(env).father == old(env).father,
        final(env).as_map() == old(env).as_map(),
        (r is Ok) == (tc_function(source@, old(env).as_map(), *f) is Ok),
        r matches Ok(func) ==> function_checked(source@, old(env).as_map(), func, *f),
        r matches Err(e) ==> type_error_eq(e, tc_function(source@, old(env).as_map(), *f)->Err_0),
    decreases f.body, 2int,
{
    let ghost src = source@;
    let ghost m0 = env.as_map();
    let mark = env.table.len();
    proof {
        assert(f.parameters@.skip(0) =~= f.parameters@);
        assert(f.parameters@.take(0) =~= Seq::<Parameter>::empty());
    }
    let mut ir_params: Vec<(Identifier, Type)> = Vec::new();
    let mut i: usize = 0;
    #[verifier::loop_isolation(false)]
    while i < f.parameters.len()
        invariant
            0 <= i <= f.parameters@.len(),
            ir_params@.len() == i,
            forall|k: int|
                0 <= k < i ==> (#[trigger] ir_params@[k]).0 == f.parameters@[k].id && type_eq(
                    ir_params@[k].1,
                    resolve_parameter(src, f.parameters@[k])->0,
                ),
            env.father == old(env).father,
            env.table@.len() >= mark,
            env.table@.subrange(0, mark as int) == old(env).table@,
            mark == old(env).table@.len(),
            env.as_map() == bind_parameters(src, m0, f.parameters@.take(i as int)),
            signature_error(src, f.parameters@, f.return_id) == signature_error(
                src,
                f.parameters@.skip(i as int),
                f.return_id,
            ),
        decreases f.parameters@.len() - i,
    {
        proof {
            assert(f.parameters@.skip(i as int).drop_first() =~= f.parameters@.skip(i as int + 1));
            assert(f.parameters@.skip(i as int)[0] == f.parameters@[i as int]);
            assert(f.parameters@.take(i as int + 1).drop_last() =~= f.parameters@.take(i as int));
            assert(parameter_wf(f.parameters@[i as int], source@.len() as nat));
        }
        let tv = match resolve_param(source, &f.parameters[i]) {
            Ok(t) => t,
            Err(e) => {
                env.table.truncate(mark);
                return Err(e);
            },
        };
        let name = span_to_vec(source, f.parameters[i].id.span);
        ir_params.push((f.parameters[i].id, tv.deep_clone()));
        env.insert(name, tv);
        proof {
            assert(env.table@.subrange(0, mark as int) =~= old(env).table@);
        }
        i = i + 1;
    }
    proof {
        assert(f.parameters@.skip(f.parameters@.len() as int) =~= Seq::<Parameter>::empty());
        assert(f.parameters@.take(f.parameters@.len() as int) =~= f.parameters@);
    }
    let ft = match &f.return_id {
        Some(t) => match resolve_type_identifier(source, t) {
            Ok(x) => x,
            Err(e) => {
                env.table.truncate(mark);
                return Err(e);
            },
        },
        Option::None => Type::Void,
    };
    let fctx: Option<(Type, Span)> = Some((ft, f.id.span));
    let body = match typecheck_expression(source, env, &fctx, &f.body) {
        Ok(b) => b,
        Err(e) => {
            env.table.truncate(mark);
            return Err(e);
        },
    };
    let ft = match fctx {
        Some((t, _)) => t,
        Option::None => Type::Void,
    };
    let tb = body.type_();
    proof {
        let stb = tc_expression(
            src,
            bind_parameters(src, m0, f.parameters@),
            Some((resolve_return(src, f.return_id)->0, f.id.span)),
            f.body,
        )->Ok_0;
        crate::ast::lemma_type_eq_transitive(tb, body.spec_type(), stb);
        crate::ast::lemma_type_eq_reflexive(ft);
        lemma_unify_congruence(ft, ft, tb, stb);
    }
    match unify(&ft, &tb) {
        Some(_) => {
            env.table.truncate(mark);
            proof {
                assert(env.table@ =~= old(env).table@);
                crate::ast::lemma_type_eq_reflexive(ft);
            }
            Ok(ir::Function { id: f.id, parameters: ir_params, return_type: ft, body })
        },
        Option::None => {
            env.table.truncate(mark);
            proof {
                assert(env.table@ =~= old(env).table@);
                crate::ast::lemma_type_eq_reflexive(ft);
            }
            Err(TypeError::ReturnTypeMismatch { expected: ft, found: tb, function: f.id.span })
        },
    }
}

/// Checks the module's statements against an already built module
/// environment, per [`tc_module_statements`], and produces the typed module:
/// one typed function per function definition, in source order. The
/// environment is left as it was found.
pub fn typecheck_module(source: &Vec<u8>, module: &ModuleStatement, env: &mut Environment) -> (r:
    Result<ir::Module, TypeError>)
    requires
        module_wf(*module, source@.len() as nat),
    ensures
        final(env).table@ == old(env).table@,
        final(env).father == old(env).father,
        final(env).as_map() == old(env).as_map(),
        (r is Ok) == (tc_module_statements(source@, old(env).as_map(), module.statements@, 0)
            is Ok),
        r matches Ok(mir) ==> {
            &&& mir.functions@.len() == fn_defs(module.statements@).len()
            &&& forall|j: int|
                0 <= j < mir.functions@.len() ==> function_checked(
                    source@,
                    old(env).as_map(),
                    #[trigger] mir.functions@[j],
                    fn_defs(module.statements@)[j],
                )
        },
        r matches Err(e) ==> type_error_eq(
            e,
            tc_module_statements(source@, old(env).as_map(), module.statements@, 0)->Err_0,
        ),
{
    let ghost src = source@;
    let ghost stmts = module.statements@;
    let ghost m = env.as_map();
    proof {
        assert(fn_defs(stmts.take(0)) =~= Seq::<FunctionDefinitionStatement>::empty());
    }
    let no_ctx: Option<(Type, Span)> = Option::None;
    let mut functions: Vec<ir::Function> = Vec::new();
    let mut i: usize = 0;
    #[verifier::loop_isolation(false)]
    while i < module.statements.len()
        invariant
            0 <= i <= stmts.len(),
            env.table@ == old(env).table@,
            env.father == old(env).father,
            env.as_map() == m,
            tc_module_statements(src, m, stmts, 0) == tc_module_statements(src, m, stmts, i as int),
            functions@.len() == fn_defs(stmts.take(i as int)).len(),
            forall|j: int|
                0 <= j < functions@.len() ==> function_checked(
                    src,
                    m,
                    #[trigger] functions@[j],
                    fn_defs(stmts.take(i as int))[j],
                ),
        decreases stmts.len() - i,
    {
        proof {
            assert(statement_wf(stmts[i as int], source@.len() as nat));
            assert(stmts.take(i as int + 1).drop_last() =~= stmts.take(i as int));
            assert(stmts.take(i as int + 1).last() == stmts[i as int]);
        }
        match &module.statements[i] {
            Statement::FunctionDefinition(f) => {
                match check_function(source, env, f) {
                    Ok(irf) => functions.push(irf),
                    Err(e) => {
                        return Err(e);
                    },
                }
            },
            Statement::ExternFunctionDeclaration(d) => {
                match build_signature_type(source, &d.parameters, &d.return_id) {
                    Ok(_) => {},
                    Err(e) => {
                        return Err(e);
                    },
                }
            },
            Statement::VariableDefinition(v) => {
                let tv = match resolve_type_identifier(source, &v.type_id) {
                    Ok(t) => t,
                    Err(e) => {
                        return Err(e);
                    },
                };
                let init = match typecheck_expression(
                    source,
                    env,
                    &no_ctx,
                    &v.initialize_expression,
                ) {
                    Ok(x) => x,
                    Err(e) => {
                        return Err(e);
                    },
                };
                let ti = init.type_();
                proof {
                    let sti = tc_expression(
                        src,
                        m,
                        Option::None,
                        v.initialize_expression,
                    )->Ok_0;
                    crate::ast::lemma_type_eq_transitive(ti, init.spec_type(), sti);
                    crate::ast::lemma_type_eq_reflexive(tv);
                    lemma_unify_congruence(tv, tv, ti, sti);
                }
                match unify(&tv, &ti) {
                    Some(_) => {},
                    Option::None => {
                        return Err(
                            TypeError::InitializerTypeMismatch {
                                expected: tv,
                                found: ti,
                                span: v.id.span,
                            },
                        );
                    },
                }
            },
            Statement::Return(rs) => {
                return Err(TypeError::ReturnOutsideFunction { span: rs.expression.span });
            },
        }
        i = i + 1;
    }
    proof {
        assert(stmts.take(stmts.len() as int) =~= stmts);
    }
    Ok(ir::Module { functions })
}

/// The type-checking entry point: builds the module environment in one
/// forward pass, then checks every statement against it, producing the typed
/// module. Fails with the environment pass's first resolution error, else
/// exactly as [`tc_module_statements`] does under the built environment.
pub fn typecheck_root_module(source: &Vec<u8>, module: &ModuleStatement) -> (r: Result<
    ir::Module,
    TypeError,
>)
    requires
        module_wf(*module, source@.len() as nat),
    ensures
        env_build_error(source@, module.statements@) matches Some(e0) ==> (r matches Err(e)
            && type_error_eq(e, e0)),
        env_build_error(source@, module.statements@) is None ==> exists|menv: Map<Seq<u8>, Type>|
            {
                &&& #[trigger] env_extends(
                    source@,
                    module.statements@,
                    Map::<Seq<u8>, Type>::empty(),
                    menv,
                )
                &&& (r is Ok) == (tc_module_statements(source@, menv, module.statements@, 0)
                    is Ok)
                &&& (r matches Err(e) ==> type_error_eq(
                    e,
                    tc_module_statements(source@, menv, module.statements@, 0)->Err_0,
                ))
            },
        r matches Ok(mir) ==> exists|menv: Map<Seq<u8>, Type>|
            {
                &&& #[trigger] env_extends(
                    source@,
                    module.statements@,
                    Map::<Seq<u8>, Type>::empty(),
                    menv,
                )
                &&& mir.functions@.len() == fn_defs(module.statements@).len()
                &&& forall|j: int|
                    0 <= j < mir.functions@.len() ==> function_checked(
                        source@,
                        menv,
                        #[trigger] mir.functions@[j],
                        fn_defs(module.statements@)[j],
                    )
            },
{
    let mut env = match build_module_environment(source, module) {
        Ok(e) => e,
        Err(e) => {
            return Err(e);
        },
    };
    let ghost menv = env.as_map();
    let r = typecheck_module(source, module, &mut env);
    proof {
        assert(env_extends(
            source@,
            module.statements@,
            Map::<Seq<u8>, Type>::empty(),
            menv,
        ));
    }
    r
}

// ---------------------------------------------------------------------------
// The environment-builder facade.
// ---------------------------------------------------------------------------

impl crate::environment_builder::EnvironmentBuilder {
    /// The source buffer this pass resolves names against.
    pub open spec fn src(self) -> Seq<u8> {
        self.type_builder.source@
    }

    pub fn new(source: Vec<u8>) -> (r: Self)
        ensures
            r.src() == source@,
    {
        crate::environment_builder::EnvironmentBuilder {
            type_builder: TypeBuilder::new(source),
        }
    }

    /// Builds the module environment in one forward pass; see
    /// [`env_extends`].
    pub fn build_environment(&self, module: &ModuleStatement) -> (r: Result<
        Environment,
        TypeError,
    >)
        requires
            module_wf(*module, self.src().len() as nat),
        ensures
            match r {
                Ok(env) => env_build_error(self.src(), module.statements@) is None && env.father
                    is None && env_extends(
                    self.src(),
                    module.statements@,
                    Map::<Seq<u8>, Type>::empty(),
                    env.as_map(),
                ),
                Err(e) => env_build_error(self.src(), module.statements@) matches Some(e0)
                    && type_error_eq(e, e0),
            },
    {
        build_module_environment(&self.type_builder.source, module)
    }

    /// Builds the environment and checks the whole module; see
    /// [`typecheck_root_module`].
    pub fn typecheck_root_module(&self, module: &ModuleStatement) -> (r: Result<
        ir::Module,
        TypeError,
    >)
        requires
            module_wf(*module, self.src().len() as nat),
        ensures
            env_build_error(self.src(), module.statements@) matches Some(e0) ==> (r matches Err(e)
                && type_error_eq(e, e0)),
            env_build_error(self.src(), module.statements@) is None ==> exists|
                menv: Map<Seq<u8>, Type>,
            |
                {
                    &&& #[trigger] env_extends(
                        self.src(),
                        module.statements@,
                        Map::<Seq<u8>, Type>::empty(),
                        menv,
                    )
                    &&& (r is Ok) == (tc_module_statements(
                        self.src(),
                        menv,
                        module.statements@,
                        0,
                    ) is Ok)
                    &&& (r matches Err(e) ==> type_error_eq(
                        e,
                        tc_module_statements(self.src(), menv, module.statements@, 0)->Err_0,
                    ))
                },
    {
        typecheck_root_module(&self.type_builder.source, module)
    }

    /// Checks one function definition against an environment; see
    /// [`tc_function`].
    pub fn typecheck_function(
        &self,
        env: &mut Environment,
        function: &FunctionDefinitionStatement,
    ) -> (r: Result<ir::Function, TypeError>)
        requires
            statement_wf(
                Statement::FunctionDefinition(Box::new(*function)),
                self.src().len() as nat,
            ),
        ensures
            final(env).table@ == old(env).table@,
            final(env).father == old(env).father,
            (r is Ok) == (tc_function(self.src(), old(env).as_map(), *function) is Ok),
            r matches Err(e) ==> type_error_eq(
                e,
                tc_function(self.src(), old(env).as_map(), *function)->Err_0,
            ),
    {
        check_function(&self.type_builder.source, env, function)
    }

    /// The type of a block under an environment; see [`tc_block`].
    pub fn typecheck_block(
        &self,
        env: &mut Environment,
        fret: &Option<(Type, Span)>,
        block: &BlockExpression,
    ) -> (r: Result<Type, TypeError>)
        requires
            crate::ast::block_wf(*block, self.src().len() as nat),
        ensures
            final(env).table@ == old(env).table@,
            final(env).father == old(env).father,
            (r is Ok) == (tc_block(self.src(), old(env).as_map(), *fret, *block, 0) is Ok),
            r matches Ok(t) ==> type_eq(
                t,
                tc_block(self.src(), old(env).as_map(), *fret, *block, 0)->Ok_0,
            ),
            r matches Err(e) ==> type_error_eq(
                e,
                tc_block(self.src(), old(env).as_map(), *fret, *block, 0)->Err_0,
            ),
    {
        match typecheck_block(&self.type_builder.source, env, fret, block) {
            Ok(irb) => Ok(irb.type_),
            Err(e) => Err(e),
        }
    }

    /// The type of an expression under an environment; see
    /// [`tc_expression`].
    pub fn typecheck_expression(
        &self,
        env: &mut Environment,
        fret: &Option<(Type, Span)>,
        expr: &Expression,
    ) -> (r: Result<Type, TypeError>)
        requires
            expression_wf(*expr, self.src().len() as nat),
        ensures
            final(env).table@ == old(env).table@,
            final(env).father == old(env).father,
            (r is Ok) == (tc_expression(self.src(), old(env).as_map(), *fret, *expr) is Ok),
            r matches Ok(t) ==> type_eq(
                t,
                tc_expression(self.src(), old(env).as_map(), *fret, *expr)->Ok_0,
            ),
            r matches Err(e) ==> type_error_eq(
                e,
                tc_expression(self.src(), old(env).as_map(), *fret, *expr)->Err_0,
            ),
    {
        let ghost m = env.as_map();
        match typecheck_expression(&self.type_builder.source, env, fret, expr) {
            Ok(ire) => {
                let t = ire.type_();
                proof {
                    crate::ast::lemma_type_eq_transitive(
                        t,
                        ire.spec_type(),
                        tc_expression(self.src(), m, *fret, *expr)->Ok_0,
                    );
                }
                Ok(t)
            },
            Err(e) => Err(e),
        }
    }

    /// The common type of a binary operation's two operands: both are
    /// checked, then reconciled; the operator itself does not change the
    /// type.
    pub fn typecheck_binary_operation(
        &self,
        env: &mut Environment,
        fret: &Option<(Type, Span)>,
        lhs: &Expression,
        op: &BinaryOperator,
        rhs: &Expression,
    ) -> (r: Result<Type, TypeError>)
        requires
            expression_wf(*lhs, self.src().len() as nat),
            expression_wf(*rhs, self.src().len() as nat),
        ensures
            final(env).table@ == old(env).table@,
            final(env).father == old(env).father,
            ({
                let sl = tc_expression(self.src(), old(env).as_map(), *fret, *lhs);
                let sr = tc_expression(self.src(), old(env).as_map(), *fret, *rhs);
                &&& (r is Ok) == (sl is Ok && sr is Ok && spec_unify(sl->Ok_0, sr->Ok_0) is Some)
                &&& (r matches Ok(t) ==> type_eq(t, spec_unify(sl->Ok_0, sr->Ok_0)->0))
            }),
    {
        let ghost src = self.src();
        let ghost m = env.as_map();
        let source = &self.type_builder.source;
        let l = match typecheck_expression(source, env, fret, lhs) {
            Ok(x) => x,
            Err(e) => {
                return Err(e);
            },
        };
        let rr = match typecheck_expression(source, env, fret, rhs) {
            Ok(x) => x,
            Err(e) => {
                return Err(e);
            },
        };
        let tl = l.type_();
        let tr = rr.type_();
        let ghost stl = tc_expression(src, m, *fret, *lhs)->Ok_0;
        let ghost str_ = tc_expression(src, m, *fret, *rhs)->Ok_0;
        proof {
            crate::ast::lemma_type_eq_transitive(tl, l.spec_type(), stl);
            crate::ast::lemma_type_eq_transitive(tr, rr.spec_type(), str_);
            lemma_unify_congruence(tl, stl, tr, str_);
        }
        match unify(&tl, &tr) {
            Some(t) => {
                proof {
                    crate::ast::lemma_type_eq_transitive(
                        t,
                        spec_unify(tl, tr)->0,
                        spec_unify(stl, str_)->0,
                    );
                }
                Ok(t)
            },
            Option::None => Err(
                TypeError::OperandTypeMismatch { left: tl, right: tr, span: lhs.span },
            ),
        }
    }

    /// The type of a literal; see [`tc_literal`].
    pub fn typecheck_literal(&self, literal: &Literal) -> (r: Result<Type, TypeError>)
        requires
            literal_wf(*literal, self.src().len() as nat),
        ensures
            match r {
                Ok(t) => tc_literal(self.src(), *literal) == Ok::<Type, TypeError>(t),
                Err(e) => tc_literal(self.src(), *literal) matches Err(e0) && type_error_eq(e, e0),
            },
    {
        check_literal(&self.type_builder.source, literal)
    }
}

} // verus!
