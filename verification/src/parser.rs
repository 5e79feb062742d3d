//! The parser: from the token stream to the span-annotated syntax tree.
//!
//! A recursive-descent walk over the whitespace-filtered token sequence,
//! with the usual precedence ladder: unary operators bind tighter than
//! multiplication and division, which bind tighter than addition and
//! subtraction, then comparisons, then conjunction, then disjunction; the
//! binary operators associate to the left.
//!
//! The grammar itself is written down as the spec functions `parses_*`:
//! for each form, whether one starts at a token position and where it ends,
//! with [`parses_module`] saying whether the whole token sequence is a
//! sentence. Every parsing function is proved to succeed exactly when its
//! spec function says so, consuming exactly as far — so parsing fails
//! exactly on the non-sentences of the grammar.
//!
//! Every parsed expression's span starts at its first token's offset and
//! ends at its last token's end, so the expression's exact source text can
//! be recovered by re-slicing the buffer; the parsing functions state this,
//! and an expression that consumed a single token is pinned down entirely.
//! A parsed tree is well formed: every span it carries lies within the
//! source buffer.

use vstd::prelude::*;

use crate::ast::{
    AccessExpression, BinaryExpression, BinaryOperator, BlockExpression, CallExpression,
    Expression, ExpressionKind, ExternFunctionDeclarationStatement, FunctionDefinitionStatement,
    Identifier, IfExpression, Literal, ModuleStatement, Parameter, ReturnStatement, Statement,
    UnaryExpression, UnaryOperator, VariableDefinitionStatement, block_wf, expression_wf,
    module_wf, parameter_wf, statement_wf,
};
use crate::lexer::{LiteralKind, Span, SpannedToken, SpannedTokens, Token, token_at, token_seq};

verus! {

/// Why parsing failed. Each variant carries the offending token or the
/// position the input ended at, for diagnostic rendering.
#[derive(Debug)]
pub enum ParseError {
    /// A byte sequence no token matches.
    InvalidToken { span: Span },
    /// The input ended where one of `expected` should stand.
    UnexpectedEndOfInput { expected: Vec<Token> },
    /// `found` stands where one of `expected` should.
    UnexpectedToken { found: SpannedToken, expected: Vec<Token> },
    /// A token follows a complete module where nothing may.
    ExtraToken { found: SpannedToken },
}

// ---------------------------------------------------------------------------
// The token sequence the parser consumes.
// ---------------------------------------------------------------------------

/// What the parser relies on of a token sequence: every span lies within the
/// source, is non-empty, tokens stand in source order without overlap, and
/// an integer literal's suffix offset falls inside its span.
/// The tokens stand in source order without overlap.
#[verifier::opaque]
pub open spec fn tokens_ordered(ts: Seq<SpannedToken>) -> bool {
    forall|k1: int, k2: int|
        0 <= k1 < k2 < ts.len() ==> (#[trigger] ts[k1]).span.offset + ts[k1].span.len <= (
        #[trigger] ts[k2]).span.offset
}

pub open spec fn tokens_wf(ts: Seq<SpannedToken>, n: nat) -> bool {
    &&& forall|k: int|
        0 <= k < ts.len() ==> (#[trigger] ts[k]).span.in_bounds(n) && ts[k].span.len > 0
    &&& tokens_ordered(ts)
    &&& forall|k: int|
        0 <= k < ts.len() ==> match (#[trigger] ts[k]).token {
            Token::Literal(LiteralKind::Integer { suffix_offset: Some(off) }) => 0 < off
                < ts[k].span.len,
            _ => true,
        }
}

/// Between two token positions the spans stand in order: the earlier
/// token's text starts no later than the later one's ends, and both lie
/// within the source.
proof fn lemma_span_join(ts: Seq<SpannedToken>, n: nat, a: int, b: int)
    requires
        tokens_wf(ts, n),
        0 <= a <= b < ts.len(),
    ensures
        ts[a].span.offset <= ts[b].span.offset + ts[b].span.len,
        ts[b].span.offset + ts[b].span.len <= n,
        ts[a].span.in_bounds(n),
{
    reveal(tokens_ordered);
    assert(ts[a].span.in_bounds(n) && ts[a].span.len > 0);
    assert(ts[b].span.in_bounds(n) && ts[b].span.len > 0);
    if a < b {
        assert(ts[a].span.offset + ts[a].span.len <= ts[b].span.offset);
    }
}

/// A literal token's suffix offset falls strictly inside the token's text.
proof fn lemma_token_at_suffix(s: Seq<u8>, i: int)
    requires
        0 <= i < s.len(),
        s.len() <= usize::MAX,
    ensures
        token_at(s, i).0 matches Token::Literal(LiteralKind::Integer { suffix_offset: Some(off) })
            ==> 0 < off < token_at(s, i).1 - i,
{
    let c = s[i];
    if crate::lexer::digit_start(c) {
        crate::lexer::lemma_run_end(s, i, |b: u8| crate::lexer::digit_continue(b));
        assert(crate::lexer::run_end(s, i, |b: u8| crate::lexer::digit_continue(b))
            == crate::lexer::run_end(s, i + 1, |b: u8| crate::lexer::digit_continue(b)));
        crate::lexer::lemma_run_end(s, i + 1, |b: u8| crate::lexer::digit_continue(b));
        let ne = crate::lexer::digit_run_end(s, i);
        if ne < s.len() && crate::lexer::id_start(s[ne]) {
            crate::lexer::lemma_run_end(s, ne, |b: u8| crate::lexer::id_continue(b));
            assert(crate::lexer::run_end(s, ne, |b: u8| crate::lexer::id_continue(b))
                == crate::lexer::run_end(s, ne + 1, |b: u8| crate::lexer::id_continue(b)));
            crate::lexer::lemma_run_end(s, ne + 1, |b: u8| crate::lexer::id_continue(b));
        }
    }
}

/// The whitespace-filtering view of the token stream: what the grammar
/// consumes. Whitespace tokens are dropped here, not in the lexer, so the
/// lexer stays reusable for tooling that wants them.
#[derive(Debug)]
pub struct Lexer {
    pub tokens: SpannedTokens,
}

impl Lexer {
    pub open spec fn wf(self) -> bool {
        self.tokens.wf()
    }

    pub open spec fn src(self) -> Seq<u8> {
        self.tokens.src()
    }

    pub open spec fn position(self) -> int {
        self.tokens.position()
    }

    pub fn new(input: Vec<u8>) -> (r: Self)
        ensures
            r.wf(),
            r.src() == input@,
            r.position() == 0,
    {
        Self { tokens: SpannedTokens::new(input) }
    }

    /// The next token that is not whitespace, or `None` once the buffer is
    /// exhausted: the head of [`token_seq`] at the current position, which
    /// moves past it.
    pub fn next(&mut self) -> (r: Option<SpannedToken>)
        requires
            old(self).wf(),
        ensures
            final(self).wf(),
            final(self).src() == old(self).src(),
            final(self).position() >= old(self).position(),
            r matches Some(st) ==> {
                &&& st.token != Token::WhiteSpace
                &&& st.span.len > 0
                &&& old(self).position() <= st.span.offset
                &&& st.span.offset + st.span.len == final(self).position()
                &&& st.span.in_bounds(old(self).src().len() as nat)
                &&& st.token == token_at(old(self).src(), st.span.offset as int).0
                &&& st.span.offset + st.span.len == token_at(
                    old(self).src(),
                    st.span.offset as int,
                ).1
                &&& token_seq(old(self).src(), old(self).position()) == seq![st] + token_seq(
                    old(self).src(),
                    final(self).position(),
                )
            },
            r is None ==> final(self).position() == final(self).src().len() && token_seq(
                old(self).src(),
                old(self).position(),
            ) == Seq::<SpannedToken>::empty(),
    {
        let total: usize = self.tokens.source.len();
        #[verifier::loop_isolation(false)]
        loop
            invariant
                self.wf(),
                self.src() == old(self).src(),
                self.position() >= old(self).position(),
                token_seq(self.src(), old(self).position()) == token_seq(
                    self.src(),
                    self.position(),
                ),
            decreases self.src().len() - self.position(),

        {
            let ghost pos_before = self.tokens.position();
            match self.tokens.next() {
                Option::None => {
                    return Option::None;
                },
                Some(st) => {
                    proof {
                        crate::lexer::lemma_token_at_bounds(self.src(), pos_before);
                    }
                    if !matches!(st.token, Token::WhiteSpace) {
                        proof {
                            assert(st == (SpannedToken {
                                token: token_at(self.src(), pos_before).0,
                                span: Span {
                                    offset: pos_before as usize,
                                    len: (token_at(self.src(), pos_before).1 - pos_before) as usize,
                                },
                            }));
                            assert(token_seq(self.src(), pos_before) =~= seq![st] + token_seq(
                                self.src(),
                                self.position(),
                            ));
                        }
                        return Some(st);
                    }
                },
            }
        }
    }
}

/// Lexes the whole buffer into the token sequence the parser consumes:
/// exactly [`token_seq`] of the source from its start — every token of the
/// source in order, whitespace dropped.
pub fn tokenize(source: &Vec<u8>) -> (r: Vec<SpannedToken>)
    ensures
        r@ == token_seq(source@, 0),
        tokens_wf(r@, source@.len() as nat),
        forall|k: int| 0 <= k < r@.len() ==> (#[trigger] r@[k]).token != Token::WhiteSpace,
        forall|k: int|
            0 <= k < r@.len() ==> (#[trigger] r@[k]).token == token_at(
                source@,
                r@[k].span.offset as int,
            ).0,
{
    let source_len: usize = source.len();
    let mut lexer = Lexer::new(clone_bytes(source));
    let ghost src = source@;
    let mut out: Vec<SpannedToken> = Vec::new();
    #[verifier::loop_isolation(false)]
    loop
        invariant
            lexer.wf(),
            lexer.src() == src,
            out@ + token_seq(src, lexer.position()) == token_seq(src, 0),
            forall|k: int|
                0 <= k < out@.len() ==> (#[trigger] out@[k]).span.offset + out@[k].span.len
                    <= lexer.position(),
            forall|k: int|
                0 <= k < out@.len() ==> (#[trigger] out@[k]).span.in_bounds(src.len() as nat)
                    && out@[k].span.len > 0,
            forall|k1: int, k2: int|
                0 <= k1 < k2 < out@.len() ==> (#[trigger] out@[k1]).span.offset + out@[
                    k1
                ].span.len <= (#[trigger] out@[k2]).span.offset,
            forall|k: int|
                0 <= k < out@.len() ==> (#[trigger] out@[k]).token != Token::WhiteSpace,
            forall|k: int|
                0 <= k < out@.len() ==> (#[trigger] out@[k]).token == token_at(
                    src,
                    out@[k].span.offset as int,
                ).0,
            forall|k: int|
                0 <= k < out@.len() ==> match (#[trigger] out@[k]).token {
                    Token::Literal(LiteralKind::Integer { suffix_offset: Some(off) }) => 0 < off
                        < out@[k].span.len,
                    _ => true,
                },
        decreases src.len() - lexer.position(),
    {
        match lexer.next() {
            Option::None => {
                proof {
                    assert(out@ =~= token_seq(src, 0));
                    assert(tokens_ordered(out@)) by {
                        reveal(tokens_ordered);
                    }
                }
                return out;
            },
            Some(st) => {
                let ghost rest = token_seq(src, lexer.position());
                proof {
                    lemma_token_at_suffix(src, st.span.offset as int);
                    assert(out@.push(st) + rest =~= out@ + (seq![st] + rest));
                }
                out.push(st);
            },
        }
    }
}

/// Copies a byte buffer.
fn clone_bytes(source: &Vec<u8>) -> (r: Vec<u8>)
    ensures
        r@ == source@,
{
    let mut out: Vec<u8> = Vec::new();
    let mut i: usize = 0;
    #[verifier::loop_isolation(false)]
    while i < source.len()
        invariant
            0 <= i <= source@.len(),
            out@.len() == i,
            forall|j: int| 0 <= j < i ==> out@[j] == source@[j],
        decreases source@.len() - i,
    {
        out.push(source[i]);
        i = i + 1;
    }
    proof {
        assert(out@ =~= source@);
    }
    out
}

// ---------------------------------------------------------------------------
// Helpers over the token sequence.
// ---------------------------------------------------------------------------

/// The bytes of the keyword that introduces a declaration of an externally
/// defined function.
pub open spec fn is_external_kw(src: Seq<u8>, sp: Span) -> bool {
    &&& sp.len == 6
    &&& sp.in_bounds(src.len() as nat)
    &&& src[sp.offset as int] == 101
    &&& src[sp.offset + 1] == 120
    &&& src[sp.offset + 2] == 116
    &&& src[sp.offset + 3] == 101
    &&& src[sp.offset + 4] == 114
    &&& src[sp.offset + 5] == 110
}

/// Whether the identifier under `sp` is the external-declaration keyword.
fn check_external_kw(source: &Vec<u8>, sp: Span) -> (r: bool)
    requires
        sp.in_bounds(source@.len() as nat),
    ensures
        r == is_external_kw(source@, sp),
{
    let source_len: usize = source.len();
    let o = sp.offset;
    sp.len == 6 && source[o] == 101 && source[o + 1] == 120 && source[o + 2] == 116 && source[o
        + 3] == 101 && source[o + 4] == 114 && source[o + 5] == 110
}

/// Consumes one token that must equal `tok`: it succeeds exactly when that
/// token stands at `i`.
fn expect(tokens: &Vec<SpannedToken>, i: usize, tok: Token) -> (r: Result<usize, ParseError>)
    requires
        i <= tokens@.len(),
    ensures
        (r is Ok) == (i < tokens@.len() && tokens@[i as int].token == tok),
        r matches Ok(j) ==> j == i + 1,
{
    if i >= tokens.len() {
        return Err(ParseError::UnexpectedEndOfInput { expected: vec![tok] });
    }
    if tokens[i].token == tok {
        Ok(i + 1)
    } else {
        Err(ParseError::UnexpectedToken { found: tokens[i], expected: vec![tok] })
    }
}

/// Whether the token at `i` can start a statement: a function definition, an
/// external function declaration, a variable definition or a return
/// statement.
fn starts_statement(source: &Vec<u8>, tokens: &Vec<SpannedToken>, i: usize) -> (r: bool)
    requires
        tokens_wf(tokens@, source@.len() as nat),
        i < tokens@.len(),
    ensures
        r == starts_statement_at(source@, tokens@, i as int),
{
    let token_count: usize = tokens.len();
    proof {
        assert(tokens@[i as int].span.in_bounds(source@.len() as nat));
    }
    match tokens[i].token {
        Token::Function => true,
        Token::Let => true,
        Token::Return => true,
        Token::Identifier => check_external_kw(source, tokens[i].span) && i + 1 < tokens.len()
            && tokens[i + 1].token == Token::Function,
        _ => false,
    }
}

// ---------------------------------------------------------------------------
// The grammar, as spec functions: which token positions begin a sentence of
// each form, and where it ends. `parses_X(src, ts, i)` is `Some(j)` exactly
// when an X starts at token `i` and its last token ends at `j`; the parsing
// functions are proved to succeed exactly when these say so, ending exactly
// where these say. Positions only ever move forward; the guards that say so
// also justify termination, and the parsers' contracts show they hold on
// every reachable path.
// ---------------------------------------------------------------------------

/// One token that must equal `t`.
pub open spec fn spec_expect(ts: Seq<SpannedToken>, i: int, t: Token) -> Option<int> {
    if 0 <= i < ts.len() && ts[i].token == t {
        Some(i + 1)
    } else {
        Option::None
    }
}

/// Whether a statement starts at token `i`: a function definition, an
/// external declaration (the keyword identifier followed by the function
/// keyword), a variable definition or a return statement.
pub open spec fn starts_statement_at(src: Seq<u8>, ts: Seq<SpannedToken>, i: int) -> bool
    recommends
        0 <= i < ts.len(),
{
    match ts[i].token {
        Token::Function => true,
        Token::Let => true,
        Token::Return => true,
        Token::Identifier => is_external_kw(src, ts[i].span) && i + 1 < ts.len() && ts[i
            + 1].token == Token::Function,
        _ => false,
    }
}

/// What an expression that consumed exactly one token must be: that token's
/// literal — its numeric and suffix parts split per the token — a boolean
/// literal, or an identifier, spanning exactly that token.
pub open spec fn single_token_expression(ts: Seq<SpannedToken>, i: int, e: Expression) -> bool
    recommends
        0 <= i < ts.len(),
{
    &&& e.span == ts[i].span
    &&& match ts[i].token {
        Token::Literal(LiteralKind::Integer { suffix_offset }) => {
            &&& e.kind matches ExpressionKind::Literal(Literal::Int { literal, suffix })
            &&& literal.offset == ts[i].span.offset
            &&& match suffix_offset {
                Option::None => suffix is None && literal.len == ts[i].span.len,
                Some(off) => {
                    &&& literal.len == off
                    &&& suffix matches Some(sp)
                    &&& sp.offset == ts[i].span.offset + off
                    &&& sp.len == ts[i].span.len - off
                },
            }
        },
        Token::True => e.kind == ExpressionKind::Literal(Literal::Boolean(true)),
        Token::False => e.kind == ExpressionKind::Literal(Literal::Boolean(false)),
        Token::Identifier => e.kind == ExpressionKind::Identifier(
            Identifier { span: ts[i].span },
        ),
        _ => true,
    }
}

pub open spec fn parses_expression(src: Seq<u8>, ts: Seq<SpannedToken>, i: int) -> Option<int>
    decreases ts.len() - i, 28int,
    when 0 <= i <= ts.len()
{
    parses_or(src, ts, i)
}

pub open spec fn parses_or(src: Seq<u8>, ts: Seq<SpannedToken>, i: int) -> Option<int>
    decreases ts.len() - i, 26int,
    when 0 <= i <= ts.len()
{
    match parses_and(src, ts, i) {
        Some(j) => if i < j <= ts.len() {
            parses_or_rest(src, ts, j)
        } else {
            Option::None
        },
        Option::None => Option::None,
    }
}

pub open spec fn parses_or_rest(src: Seq<u8>, ts: Seq<SpannedToken>, i: int) -> Option<int>
    decreases ts.len() - i, 25int,
    when 0 <= i <= ts.len()
{
    if i < ts.len() && (ts[i].token == Token::DoublePipe || ts[i].token == Token::Or) {
        match parses_and(src, ts, i + 1) {
            Some(j) => if i < j <= ts.len() {
                parses_or_rest(src, ts, j)
            } else {
                Option::None
            },
            Option::None => Option::None,
        }
    } else {
        Some(i)
    }
}

pub open spec fn parses_and(src: Seq<u8>, ts: Seq<SpannedToken>, i: int) -> Option<int>
    decreases ts.len() - i, 24int,
    when 0 <= i <= ts.len()
{
    match parses_comparison(src, ts, i) {
        Some(j) => if i < j <= ts.len() {
            parses_and_rest(src, ts, j)
        } else {
            Option::None
        },
        Option::None => Option::None,
    }
}

pub open spec fn parses_and_rest(src: Seq<u8>, ts: Seq<SpannedToken>, i: int) -> Option<int>
    decreases ts.len() - i, 23int,
    when 0 <= i <= ts.len()
{
    if i < ts.len() && (ts[i].token == Token::DoubleAmpersand || ts[i].token == Token::And) {
        match parses_comparison(src, ts, i + 1) {
            Some(j) => if i < j <= ts.len() {
                parses_and_rest(src, ts, j)
            } else {
                Option::None
            },
            Option::None => Option::None,
        }
    } else {
        Some(i)
    }
}

/// The comparison operators.
pub open spec fn is_comparison_op(t: Token) -> bool {
    ||| t == Token::DoubleEquals
    ||| t == Token::LessThan
    ||| t == Token::LessEqualThan
    ||| t == Token::GreaterThan
    ||| t == Token::GreaterEqualThan
}

pub open spec fn parses_comparison(src: Seq<u8>, ts: Seq<SpannedToken>, i: int) -> Option<int>
    decreases ts.len() - i, 22int,
    when 0 <= i <= ts.len()
{
    match parses_additive(src, ts, i) {
        Some(j) => if i < j <= ts.len() {
            parses_comparison_rest(src, ts, j)
        } else {
            Option::None
        },
        Option::None => Option::None,
    }
}

pub open spec fn parses_comparison_rest(src: Seq<u8>, ts: Seq<SpannedToken>, i: int) -> Option<
    int,
>
    decreases ts.len() - i, 21int,
    when 0 <= i <= ts.len()
{
    if i < ts.len() && is_comparison_op(ts[i].token) {
        match parses_additive(src, ts, i + 1) {
            Some(j) => if i < j <= ts.len() {
                parses_comparison_rest(src, ts, j)
            } else {
                Option::None
            },
            Option::None => Option::None,
        }
    } else {
        Some(i)
    }
}

pub open spec fn parses_additive(src: Seq<u8>, ts: Seq<SpannedToken>, i: int) -> Option<int>
    decreases ts.len() - i, 20int,
    when 0 <= i <= ts.len()
{
    match parses_multiplicative(src, ts, i) {
        Some(j) => if i < j <= ts.len() {
            parses_additive_rest(src, ts, j)
        } else {
            Option::None
        },
        Option::None => Option::None,
    }
}

pub open spec fn parses_additive_rest(src: Seq<u8>, ts: Seq<SpannedToken>, i: int) -> Option<int>
    decreases ts.len() - i, 19int,
    when 0 <= i <= ts.len()
{
    if i < ts.len() && (ts[i].token == Token::Plus || ts[i].token == Token::Minus) {
        match parses_multiplicative(src, ts, i + 1) {
            Some(j) => if i < j <= ts.len() {
                parses_additive_rest(src, ts, j)
            } else {
                Option::None
            },
            Option::None => Option::None,
        }
    } else {
        Some(i)
    }
}

pub open spec fn parses_multiplicative(src: Seq<u8>, ts: Seq<SpannedToken>, i: int) -> Option<int>
    decreases ts.len() - i, 18int,
    when 0 <= i <= ts.len()
{
    match parses_unary(src, ts, i) {
        Some(j) => if i < j <= ts.len() {
            parses_multiplicative_rest(src, ts, j)
        } else {
            Option::None
        },
        Option::None => Option::None,
    }
}

pub open spec fn parses_multiplicative_rest(src: Seq<u8>, ts: Seq<SpannedToken>, i: int) -> Option<
    int,
>
    decreases ts.len() - i, 17int,
    when 0 <= i <= ts.len()
{
    if i < ts.len() && (ts[i].token == Token::Asterisk || ts[i].token == Token::Slash) {
        match parses_unary(src, ts, i + 1) {
            Some(j) => if i < j <= ts.len() {
                parses_multiplicative_rest(src, ts, j)
            } else {
                Option::None
            },
            Option::None => Option::None,
        }
    } else {
        Some(i)
    }
}

/// The prefix operators.
pub open spec fn is_unary_op(t: Token) -> bool {
    ||| t == Token::Minus
    ||| t == Token::Bang
    ||| t == Token::Not
    ||| t == Token::Asterisk
}

pub open spec fn parses_unary(src: Seq<u8>, ts: Seq<SpannedToken>, i: int) -> Option<int>
    decreases ts.len() - i, 16int,
    when 0 <= i <= ts.len()
{
    if i < ts.len() && is_unary_op(ts[i].token) {
        parses_unary(src, ts, i + 1)
    } else {
        parses_postfix(src, ts, i)
    }
}

pub open spec fn parses_postfix(src: Seq<u8>, ts: Seq<SpannedToken>, i: int) -> Option<int>
    decreases ts.len() - i, 14int,
    when 0 <= i <= ts.len()
{
    match parses_primary(src, ts, i) {
        Some(j) => if i < j <= ts.len() {
            parses_postfix_rest(src, ts, j)
        } else {
            Option::None
        },
        Option::None => Option::None,
    }
}

pub open spec fn parses_postfix_rest(src: Seq<u8>, ts: Seq<SpannedToken>, i: int) -> Option<int>
    decreases ts.len() - i, 13int,
    when 0 <= i <= ts.len()
{
    if i < ts.len() && ts[i].token == Token::OpenParentheses {
        match parses_call_suffix(src, ts, i) {
            Some(j) => if i < j <= ts.len() {
                parses_postfix_rest(src, ts, j)
            } else {
                Option::None
            },
            Option::None => Option::None,
        }
    } else if i < ts.len() && ts[i].token == Token::OpenBracket {
        match parses_expression(src, ts, i + 1) {
            Some(j) => match spec_expect(ts, j, Token::CloseBracket) {
                Some(j2) => if i < j2 <= ts.len() {
                    parses_postfix_rest(src, ts, j2)
                } else {
                    Option::None
                },
                Option::None => Option::None,
            },
            Option::None => Option::None,
        }
    } else {
        Some(i)
    }
}

/// The argument list of a call, from its opening parenthesis to just past
/// the closing one.
pub open spec fn parses_call_suffix(src: Seq<u8>, ts: Seq<SpannedToken>, i: int) -> Option<int>
    decreases ts.len() - i, 12int,
    when 0 <= i <= ts.len()
{
    if i + 1 < ts.len() && ts[i + 1].token == Token::CloseParentheses {
        Some(i + 2)
    } else if i < ts.len() {
        match parses_expression_list(src, ts, i + 1) {
            Some(j) => spec_expect(ts, j, Token::CloseParentheses),
            Option::None => Option::None,
        }
    } else {
        Option::None
    }
}

/// An array literal's elements, from the opening bracket to just past the
/// closing one.
pub open spec fn parses_array_suffix(src: Seq<u8>, ts: Seq<SpannedToken>, i: int) -> Option<int>
    decreases ts.len() - i, 8int,
    when 0 <= i <= ts.len()
{
    if i + 1 < ts.len() && ts[i + 1].token == Token::CloseBracket {
        Some(i + 2)
    } else if i < ts.len() {
        match parses_expression_list(src, ts, i + 1) {
            Some(j) => spec_expect(ts, j, Token::CloseBracket),
            Option::None => Option::None,
        }
    } else {
        Option::None
    }
}

/// One or more comma-separated expressions.
pub open spec fn parses_expression_list(src: Seq<u8>, ts: Seq<SpannedToken>, i: int) -> Option<int>
    decreases ts.len() - i, 29int,
    when 0 <= i <= ts.len()
{
    if i >= ts.len() {
        Option::None
    } else {
        match parses_expression(src, ts, i) {
            Some(j) => if i < j <= ts.len() {
                parses_expression_list_rest(src, ts, j)
            } else {
                Option::None
            },
            Option::None => Option::None,
        }
    }
}

pub open spec fn parses_expression_list_rest(src: Seq<u8>, ts: Seq<SpannedToken>, i: int) -> Option<
    int,
>
    decreases ts.len() - i, 10int,
    when 0 <= i <= ts.len()
{
    if i < ts.len() && ts[i].token == Token::Comma {
        match parses_expression(src, ts, i + 1) {
            Some(j) => if i < j <= ts.len() {
                parses_expression_list_rest(src, ts, j)
            } else {
                Option::None
            },
            Option::None => Option::None,
        }
    } else {
        Some(i)
    }
}

pub open spec fn parses_primary(src: Seq<u8>, ts: Seq<SpannedToken>, i: int) -> Option<int>
    decreases ts.len() - i, 9int,
    when 0 <= i <= ts.len()
{
    if i >= ts.len() {
        Option::None
    } else {
        match ts[i].token {
            Token::Literal(_) => Some(i + 1),
            Token::True => Some(i + 1),
            Token::False => Some(i + 1),
            Token::Identifier => Some(i + 1),
            Token::OpenParentheses => match parses_expression(src, ts, i + 1) {
                Some(j) => spec_expect(ts, j, Token::CloseParentheses),
                Option::None => Option::None,
            },
            Token::OpenBracket => parses_array_suffix(src, ts, i),
            Token::OpenBrace => parses_block(src, ts, i),
            Token::If => parses_if(src, ts, i),
            _ => Option::None,
        }
    }
}

/// A block: `{`, statements while one starts, an optional trailing
/// expression, `}`.
pub open spec fn parses_block(src: Seq<u8>, ts: Seq<SpannedToken>, i: int) -> Option<int>
    decreases ts.len() - i, 8int,
    when 0 <= i <= ts.len()
{
    if i < ts.len() && ts[i].token == Token::OpenBrace {
        parses_block_rest(src, ts, i + 1)
    } else {
        Option::None
    }
}

pub open spec fn parses_block_rest(src: Seq<u8>, ts: Seq<SpannedToken>, i: int) -> Option<int>
    decreases ts.len() - i, 30int,
    when 0 <= i <= ts.len()
{
    if i < ts.len() && starts_statement_at(src, ts, i) {
        match parses_statement(src, ts, i) {
            Some(j) => if i < j <= ts.len() {
                parses_block_rest(src, ts, j)
            } else {
                Option::None
            },
            Option::None => Option::None,
        }
    } else if i < ts.len() && ts[i].token == Token::CloseBrace {
        Some(i + 1)
    } else {
        match parses_expression(src, ts, i) {
            Some(j) => spec_expect(ts, j, Token::CloseBrace),
            Option::None => Option::None,
        }
    }
}

/// `if condition block else (block | if)`.
pub open spec fn parses_if(src: Seq<u8>, ts: Seq<SpannedToken>, i: int) -> Option<int>
    decreases ts.len() - i, 8int,
    when 0 <= i <= ts.len()
{
    if i < ts.len() && ts[i].token == Token::If {
        match parses_expression(src, ts, i + 1) {
            Some(j) => if i < j <= ts.len() && j < ts.len() && ts[j].token == Token::OpenBrace {
                match parses_block(src, ts, j) {
                    Some(j2) => match spec_expect(ts, j2, Token::Else) {
                        Some(j3) => if i < j3 <= ts.len() {
                            if j3 < ts.len() && ts[j3].token == Token::If {
                                parses_if(src, ts, j3)
                            } else if j3 < ts.len() && ts[j3].token == Token::OpenBrace {
                                parses_block(src, ts, j3)
                            } else {
                                Option::None
                            }
                        } else {
                            Option::None
                        },
                        Option::None => Option::None,
                    },
                    Option::None => Option::None,
                }
            } else {
                Option::None
            },
            Option::None => Option::None,
        }
    } else {
        Option::None
    }
}

/// The parameter list between the parentheses of a signature, the closing
/// parenthesis not consumed: empty, or names with optional declared types,
/// comma-separated.
pub open spec fn parses_parameters(src: Seq<u8>, ts: Seq<SpannedToken>, i: int) -> Option<int>
    decreases ts.len() - i, 5int,
    when 0 <= i <= ts.len()
{
    if i < ts.len() && ts[i].token == Token::CloseParentheses {
        Some(i)
    } else {
        parses_parameters_rest(src, ts, i)
    }
}

/// One parameter: a name, optionally followed by `:` and a type name.
pub open spec fn parses_parameter(ts: Seq<SpannedToken>, i: int) -> Option<int> {
    match spec_expect(ts, i, Token::Identifier) {
        Some(j1) => if j1 < ts.len() && ts[j1].token == Token::Colon {
            spec_expect(ts, j1 + 1, Token::Identifier)
        } else {
            Some(j1)
        },
        Option::None => Option::None,
    }
}

/// One parameter, then more after each comma.
pub open spec fn parses_parameters_rest(src: Seq<u8>, ts: Seq<SpannedToken>, i: int) -> Option<int>
    decreases ts.len() - i, 4int,
    when 0 <= i <= ts.len()
{
    match parses_parameter(ts, i) {
        Some(j) => if i < j <= ts.len() {
            parses_parameters_tail(src, ts, j)
        } else {
            Option::None
        },
        Option::None => Option::None,
    }
}

/// After a parameter: a comma brings another, else the list ends here.
pub open spec fn parses_parameters_tail(src: Seq<u8>, ts: Seq<SpannedToken>, i: int) -> Option<int>
    decreases ts.len() - i, 3int,
    when 0 <= i <= ts.len()
{
    if i < ts.len() && ts[i].token == Token::Comma {
        match parses_parameter(ts, i + 1) {
            Some(j) => if i < j <= ts.len() {
                parses_parameters_tail(src, ts, j)
            } else {
                Option::None
            },
            Option::None => Option::None,
        }
    } else {
        Some(i)
    }
}

/// The return-type annotation and where it ends: after `:` or `->` a type
/// name must follow; with neither the position is unchanged.
pub open spec fn parses_return_annotation(ts: Seq<SpannedToken>, i: int) -> Option<int> {
    if 0 <= i < ts.len() && (ts[i].token == Token::Colon || ts[i].token == Token::Arrow) {
        spec_expect(ts, i + 1, Token::Identifier)
    } else {
        Some(i)
    }
}

/// An optional semicolon.
pub open spec fn parses_optional_semicolon(ts: Seq<SpannedToken>, i: int) -> int {
    if 0 <= i < ts.len() && ts[i].token == Token::Semicolon {
        i + 1
    } else {
        i
    }
}

/// `fn name(params) return-annotation? (block | => expression) ;?`.
pub open spec fn parses_function_definition(src: Seq<u8>, ts: Seq<SpannedToken>, i: int) -> Option<
    int,
>
    decreases ts.len() - i, 2int,
    when 0 <= i <= ts.len()
{
    if i < ts.len() && ts[i].token == Token::Function {
        match spec_expect(ts, i + 1, Token::Identifier) {
            Some(j1) => match spec_expect(ts, j1, Token::OpenParentheses) {
                Some(j2) => match if i < j2 <= ts.len() {
                    parses_parameters(src, ts, j2)
                } else {
                    Option::None
                } {
                    Some(j3) => match spec_expect(ts, j3, Token::CloseParentheses) {
                        Some(j4) => match parses_return_annotation(ts, j4) {
                            Some(j5) => {
                                let body = if i < j5 <= ts.len() && j5 < ts.len() && ts[j5].token
                                    == Token::OpenBrace {
                                    parses_block(src, ts, j5)
                                } else {
                                    match spec_expect(ts, j5, Token::FatArrow) {
                                        Some(j7) => if i < j7 <= ts.len() {
                                            parses_expression(src, ts, j7)
                                        } else {
                                            Option::None
                                        },
                                        Option::None => Option::None,
                                    }
                                };
                                match body {
                                    Some(j8) => Some(parses_optional_semicolon(ts, j8)),
                                    Option::None => Option::None,
                                }
                            },
                            Option::None => Option::None,
                        },
                        Option::None => Option::None,
                    },
                    Option::None => Option::None,
                },
                Option::None => Option::None,
            },
            Option::None => Option::None,
        }
    } else {
        Option::None
    }
}

/// The external keyword, then `fn name(params) return-annotation? ;?` with
/// no body.
pub open spec fn parses_external_declaration(src: Seq<u8>, ts: Seq<SpannedToken>, i: int) -> Option<
    int,
>
    decreases ts.len() - i, 2int,
    when 0 <= i <= ts.len()
{
    if i + 1 < ts.len() && ts[i].token == Token::Identifier && is_external_kw(src, ts[i].span)
        && ts[i + 1].token == Token::Function {
        match spec_expect(ts, i + 2, Token::Identifier) {
            Some(j1) => match spec_expect(ts, j1, Token::OpenParentheses) {
                Some(j2) => match if i < j2 <= ts.len() {
                    parses_parameters(src, ts, j2)
                } else {
                    Option::None
                } {
                    Some(j3) => match spec_expect(ts, j3, Token::CloseParentheses) {
                        Some(j4) => match parses_return_annotation(ts, j4) {
                            Some(j5) => Some(parses_optional_semicolon(ts, j5)),
                            Option::None => Option::None,
                        },
                        Option::None => Option::None,
                    },
                    Option::None => Option::None,
                },
                Option::None => Option::None,
            },
            Option::None => Option::None,
        }
    } else {
        Option::None
    }
}

/// `let name : type = expression ;`.
pub open spec fn parses_variable_definition(src: Seq<u8>, ts: Seq<SpannedToken>, i: int) -> Option<
    int,
>
    decreases ts.len() - i, 2int,
    when 0 <= i <= ts.len()
{
    if i < ts.len() && ts[i].token == Token::Let {
        match spec_expect(ts, i + 1, Token::Identifier) {
            Some(j1) => match spec_expect(ts, j1, Token::Colon) {
                Some(j2) => match spec_expect(ts, j2, Token::Identifier) {
                    Some(j3) => match spec_expect(ts, j3, Token::Equals) {
                        Some(j4) => match if i < j4 <= ts.len() {
                            parses_expression(src, ts, j4)
                        } else {
                            Option::None
                        } {
                            Some(j5) => spec_expect(ts, j5, Token::Semicolon),
                            Option::None => Option::None,
                        },
                        Option::None => Option::None,
                    },
                    Option::None => Option::None,
                },
                Option::None => Option::None,
            },
            Option::None => Option::None,
        }
    } else {
        Option::None
    }
}

/// `return expression ;`.
pub open spec fn parses_return_statement(src: Seq<u8>, ts: Seq<SpannedToken>, i: int) -> Option<
    int,
>
    decreases ts.len() - i, 2int,
    when 0 <= i <= ts.len()
{
    if i < ts.len() && ts[i].token == Token::Return {
        match parses_expression(src, ts, i + 1) {
            Some(j1) => spec_expect(ts, j1, Token::Semicolon),
            Option::None => Option::None,
        }
    } else {
        Option::None
    }
}

/// One statement of any of the four forms.
pub open spec fn parses_statement(src: Seq<u8>, ts: Seq<SpannedToken>, i: int) -> Option<int>
    decreases ts.len() - i, 3int,
    when 0 <= i <= ts.len()
{
    if i >= ts.len() {
        Option::None
    } else {
        match ts[i].token {
            Token::Function => parses_function_definition(src, ts, i),
            Token::Let => parses_variable_definition(src, ts, i),
            Token::Return => parses_return_statement(src, ts, i),
            Token::Identifier => if is_external_kw(src, ts[i].span) && i + 1 < ts.len() && ts[i
                + 1].token == Token::Function {
                parses_external_declaration(src, ts, i)
            } else {
                Option::None
            },
            _ => Option::None,
        }
    }
}

/// The whole token sequence from `i` on is a sentence of the grammar: a
/// run of statements that consumes every token.
pub open spec fn parses_module(src: Seq<u8>, ts: Seq<SpannedToken>, i: int) -> bool
    decreases ts.len() - i, 40int,
    when 0 <= i <= ts.len()
{
    if i >= ts.len() {
        true
    } else if ts[i].token == Token::Unknown {
        false
    } else if !starts_statement_at(src, ts, i) {
        false
    } else {
        match parses_statement(src, ts, i) {
            Some(j) => i < j <= ts.len() && parses_module(src, ts, j),
            Option::None => false,
        }
    }
}

/// A position within the token sequence; the split points of the tree-shape
/// relations are chosen among these.
pub open spec fn cut(ts: Seq<SpannedToken>, k: int) -> bool {
    0 <= k <= ts.len()
}

/// The span runs exactly from token `i`'s offset to token `j - 1`'s end.
pub open spec fn covers(ts: Seq<SpannedToken>, i: int, j: int, sp: Span) -> bool {
    &&& 0 <= i < j <= ts.len()
    &&& sp.offset == ts[i].span.offset
    &&& sp.offset + sp.len == ts[j - 1].span.offset + ts[j - 1].span.len
}

/// Which token spells a binary operator.
pub open spec fn binary_op_token(op: BinaryOperator, t: Token) -> bool {
    match op {
        BinaryOperator::Or => t == Token::DoublePipe || t == Token::Or,
        BinaryOperator::And => t == Token::DoubleAmpersand || t == Token::And,
        BinaryOperator::Equal => t == Token::DoubleEquals,
        BinaryOperator::LessThan => t == Token::LessThan,
        BinaryOperator::LessEqualThan => t == Token::LessEqualThan,
        BinaryOperator::GreaterThan => t == Token::GreaterThan,
        BinaryOperator::GreaterEqualThan => t == Token::GreaterEqualThan,
        BinaryOperator::Plus => t == Token::Plus,
        BinaryOperator::Minus => t == Token::Minus,
        BinaryOperator::Multiplication => t == Token::Asterisk,
        BinaryOperator::Division => t == Token::Slash,
    }
}

/// Which token spells a prefix operator.
pub open spec fn unary_op_token(op: UnaryOperator, t: Token) -> bool {
    match op {
        UnaryOperator::Minus => t == Token::Minus,
        UnaryOperator::Not => t == Token::Bang || t == Token::Not,
        UnaryOperator::Deref => t == Token::Asterisk,
    }
}

/// One parameter at token `p`: its end, when the parameter's name and
/// optional type annotation stand there.
pub open spec fn param_at(ts: Seq<SpannedToken>, p: int, prm: Parameter) -> Option<int> {
    if 0 <= p < ts.len() && ts[p].token == Token::Identifier && prm.id.span == ts[p].span {
        match prm.type_id {
            Some(t) => if p + 2 < ts.len() && ts[p + 1].token == Token::Colon && ts[p
                + 2].token == Token::Identifier && t.span == ts[p + 2].span {
                Some(p + 3)
            } else {
                Option::None
            },
            Option::None => if !(p + 1 < ts.len() && ts[p + 1].token == Token::Colon) {
                Some(p + 1)
            } else {
                Option::None
            },
        }
    } else {
        Option::None
    }
}

pub open spec fn expression_at(
    src: Seq<u8>,
    ts: Seq<SpannedToken>,
    i: int,
    j: int,
    e: Expression,
) -> bool
    decreases j - i, 40int, e,
    when 0 <= i && 0 <= j - i && j <= ts.len()
{
    or_at(src, ts, i, j, e)
}

pub open spec fn or_at(src: Seq<u8>, ts: Seq<SpannedToken>, i: int, j: int, e: Expression) -> bool
    decreases j - i, 38int, e,
    when 0 <= i && 0 <= j - i && j <= ts.len()
{
    ||| and_at(src, ts, i, j, e)
    ||| {
        &&& e.kind matches ExpressionKind::Binary(b)
        &&& b.operator == BinaryOperator::Or
        &&& covers(ts, i, j, e.span)
        &&& exists|k: int|
            #![trigger cut(ts, k)]
            {
                &&& cut(ts, k)
                &&& i < k < j
                &&& binary_op_token(b.operator, ts[k].token)
                &&& or_at(src, ts, i, k, b.left)
                &&& and_at(src, ts, k + 1, j, b.right)
            }
    }
}

pub open spec fn and_at(src: Seq<u8>, ts: Seq<SpannedToken>, i: int, j: int, e: Expression) -> bool
    decreases j - i, 36int, e,
    when 0 <= i && 0 <= j - i && j <= ts.len()
{
    ||| comparison_at(src, ts, i, j, e)
    ||| {
        &&& e.kind matches ExpressionKind::Binary(b)
        &&& b.operator == BinaryOperator::And
        &&& covers(ts, i, j, e.span)
        &&& exists|k: int|
            #![trigger cut(ts, k)]
            {
                &&& cut(ts, k)
                &&& i < k < j
                &&& binary_op_token(b.operator, ts[k].token)
                &&& and_at(src, ts, i, k, b.left)
                &&& comparison_at(src, ts, k + 1, j, b.right)
            }
    }
}

/// The comparison operators of the comparison level.
pub open spec fn is_comparison_operator(op: BinaryOperator) -> bool {
    ||| op == BinaryOperator::Equal
    ||| op == BinaryOperator::LessThan
    ||| op == BinaryOperator::LessEqualThan
    ||| op == BinaryOperator::GreaterThan
    ||| op == BinaryOperator::GreaterEqualThan
}

pub open spec fn comparison_at(
    src: Seq<u8>,
    ts: Seq<SpannedToken>,
    i: int,
    j: int,
    e: Expression,
) -> bool
    decreases j - i, 34int, e,
    when 0 <= i && 0 <= j - i && j <= ts.len()
{
    ||| additive_at(src, ts, i, j, e)
    ||| {
        &&& e.kind matches ExpressionKind::Binary(b)
        &&& is_comparison_operator(b.operator)
        &&& covers(ts, i, j, e.span)
        &&& exists|k: int|
            #![trigger cut(ts, k)]
            {
                &&& cut(ts, k)
                &&& i < k < j
                &&& binary_op_token(b.operator, ts[k].token)
                &&& comparison_at(src, ts, i, k, b.left)
                &&& additive_at(src, ts, k + 1, j, b.right)
            }
    }
}

pub open spec fn additive_at(
    src: Seq<u8>,
    ts: Seq<SpannedToken>,
    i: int,
    j: int,
    e: Expression,
) -> bool
    decreases j - i, 32int, e,
    when 0 <= i && 0 <= j - i && j <= ts.len()
{
    ||| multiplicative_at(src, ts, i, j, e)
    ||| {
        &&& e.kind matches ExpressionKind::Binary(b)
        &&& (b.operator == BinaryOperator::Plus || b.operator == BinaryOperator::Minus)
        &&& covers(ts, i, j, e.span)
        &&& exists|k: int|
            #![trigger cut(ts, k)]
            {
                &&& cut(ts, k)
                &&& i < k < j
                &&& binary_op_token(b.operator, ts[k].token)
                &&& additive_at(src, ts, i, k, b.left)
                &&& multiplicative_at(src, ts, k + 1, j, b.right)
            }
    }
}

pub open spec fn multiplicative_at(
    src: Seq<u8>,
    ts: Seq<SpannedToken>,
    i: int,
    j: int,
    e: Expression,
) -> bool
    decreases j - i, 30int, e,
    when 0 <= i && 0 <= j - i && j <= ts.len()
{
    ||| unary_at(src, ts, i, j, e)
    ||| {
        &&& e.kind matches ExpressionKind::Binary(b)
        &&& (b.operator == BinaryOperator::Multiplication || b.operator
            == BinaryOperator::Division)
        &&& covers(ts, i, j, e.span)
        &&& exists|k: int|
            #![trigger cut(ts, k)]
            {
                &&& cut(ts, k)
                &&& i < k < j
                &&& binary_op_token(b.operator, ts[k].token)
                &&& multiplicative_at(src, ts, i, k, b.left)
                &&& unary_at(src, ts, k + 1, j, b.right)
            }
    }
}

pub open spec fn unary_at(
    src: Seq<u8>,
    ts: Seq<SpannedToken>,
    i: int,
    j: int,
    e: Expression,
) -> bool
    decreases j - i, 28int, e,
    when 0 <= i && 0 <= j - i && j <= ts.len()
{
    if i < ts.len() && is_unary_op(ts[i].token) {
        &&& e.kind matches ExpressionKind::Unary(u)
        &&& unary_op_token(u.operator, ts[i].token)
        &&& covers(ts, i, j, e.span)
        &&& unary_at(src, ts, i + 1, j, u.expression)
    } else {
        postfix_at(src, ts, i, j, e)
    }
}

pub open spec fn postfix_at(
    src: Seq<u8>,
    ts: Seq<SpannedToken>,
    i: int,
    j: int,
    e: Expression,
) -> bool
    decreases j - i, 26int, e,
    when 0 <= i && 0 <= j - i && j <= ts.len()
{
    ||| primary_at(src, ts, i, j, e)
    ||| {
        &&& e.kind matches ExpressionKind::Call(c)
        &&& covers(ts, i, j, e.span)
        &&& ts[j - 1].token == Token::CloseParentheses
        &&& exists|k: int|
            #![trigger cut(ts, k)]
            {
                &&& cut(ts, k)
                &&& i < k < j - 1
                &&& ts[k].token == Token::OpenParentheses
                &&& postfix_at(src, ts, i, k, c.callee)
                &&& expression_list_at(src, ts, k + 1, j - 1, c.arguments@)
            }
    }
    ||| {
        &&& e.kind matches ExpressionKind::Access(a)
        &&& covers(ts, i, j, e.span)
        &&& ts[j - 1].token == Token::CloseBracket
        &&& exists|k: int|
            #![trigger cut(ts, k)]
            {
                &&& cut(ts, k)
                &&& i < k < j - 1
                &&& ts[k].token == Token::OpenBracket
                &&& postfix_at(src, ts, i, k, a.base)
                &&& expression_at(src, ts, k + 1, j - 1, a.offset)
            }
    }
}

/// Comma-separated expressions covering tokens `p..q` exactly, in order:
/// the empty list covers nothing, and each further element follows a comma.
pub open spec fn expression_list_at(
    src: Seq<u8>,
    ts: Seq<SpannedToken>,
    p: int,
    q: int,
    es: Seq<Expression>,
) -> bool
    decreases q - p, 58int, es,
    when 0 <= p && 0 <= q - p && q <= ts.len()
{
    if es.len() == 0 {
        p == q
    } else if es.len() == 1 {
        p < q && expression_at(src, ts, p, q, es.last())
    } else {
        &&& p < q
        &&& exists|k: int|
            #![trigger cut(ts, k)]
            {
                &&& cut(ts, k)
                &&& p < k < q
                &&& ts[k].token == Token::Comma
                &&& k + 1 < q
                &&& expression_at(src, ts, k + 1, q, es.last())
                &&& expression_list_at(src, ts, p, k, es.drop_last())
            }
    }
}

pub open spec fn primary_at(
    src: Seq<u8>,
    ts: Seq<SpannedToken>,
    i: int,
    j: int,
    e: Expression,
) -> bool
    decreases j - i, 24int, e,
    when 0 <= i && 0 <= j - i && j <= ts.len()
{
    if i >= ts.len() {
        false
    } else {
        match ts[i].token {
            Token::Literal(_) => j == i + 1 && single_token_expression(ts, i, e),
            Token::True => j == i + 1 && single_token_expression(ts, i, e),
            Token::False => j == i + 1 && single_token_expression(ts, i, e),
            Token::Identifier => j == i + 1 && single_token_expression(ts, i, e),
            // A parenthesized expression: the inner tree has this node's
            // kind and the span between the parentheses.
            Token::OpenParentheses => {
                &&& covers(ts, i, j, e.span)
                &&& j >= i + 3
                &&& ts[j - 1].token == Token::CloseParentheses
                &&& expression_at(
                    src,
                    ts,
                    i + 1,
                    j - 1,
                    Expression {
                        kind: e.kind,
                        span: Span {
                            offset: ts[i + 1].span.offset,
                            len: (ts[j - 2].span.offset + ts[j - 2].span.len - ts[i
                                + 1].span.offset) as usize,
                        },
                    },
                )
            },
            Token::OpenBracket => {
                &&& e.kind matches ExpressionKind::Array { elements }
                &&& covers(ts, i, j, e.span)
                &&& j >= i + 2
                &&& ts[j - 1].token == Token::CloseBracket
                &&& expression_list_at(src, ts, i + 1, j - 1, elements@)
            },
            Token::OpenBrace => {
                &&& e.kind matches ExpressionKind::Block(b)
                &&& covers(ts, i, j, e.span)
                &&& block_at(src, ts, i, j, *b)
            },
            Token::If => {
                &&& e.kind matches ExpressionKind::If(f)
                &&& covers(ts, i, j, e.span)
                &&& exists|k: int, k2: int|
                    #![trigger cut(ts, k), cut(ts, k2)]
                    {
                        &&& cut(ts, k)
                        &&& cut(ts, k2)
                        &&& i + 1 < k < k2 < j
                        &&& ts[k].token == Token::OpenBrace
                        &&& ts[k2].token == Token::Else
                        &&& (ts[k2 + 1].token == Token::If || ts[k2 + 1].token
                            == Token::OpenBrace)
                        &&& expression_at(src, ts, i + 1, k, f.condition)
                        &&& expression_at(src, ts, k, k2, f.true_path)
                        &&& expression_at(src, ts, k2 + 1, j, f.false_path)
                    }
            },
            _ => false,
        }
    }
}

/// A block covering tokens `i..j`: braces around statements in order, then
/// the optional trailing expression.
pub open spec fn block_at(
    src: Seq<u8>,
    ts: Seq<SpannedToken>,
    i: int,
    j: int,
    b: BlockExpression,
) -> bool
    decreases j - i, 22int, b,
    when 0 <= i && 0 <= j - i && j <= ts.len()
{
    &&& 0 <= i < j <= ts.len()
    &&& j >= i + 2
    &&& ts[i].token == Token::OpenBrace
    &&& ts[j - 1].token == Token::CloseBrace
    &&& match b.return_expression {
        Some(te) => exists|q: int|
            #![trigger cut(ts, q)]
            {
                &&& cut(ts, q)
                &&& i + 1 <= q < j - 1
                &&& statements_at(src, ts, i + 1, q, b.statements@)
                &&& expression_at(src, ts, q, j - 1, te)
            },
        Option::None => statements_at(src, ts, i + 1, j - 1, b.statements@),
    }
}

/// Statements in order, covering tokens `p..q` exactly.
pub open spec fn statements_at(
    src: Seq<u8>,
    ts: Seq<SpannedToken>,
    p: int,
    q: int,
    stmts: Seq<Statement>,
) -> bool
    decreases q - p, 60int, stmts,
    when 0 <= p && 0 <= q - p && q <= ts.len()
{
    if stmts.len() == 0 {
        p == q
    } else {
        exists|k: int|
            #![trigger cut(ts, k)]
            {
                &&& cut(ts, k)
                &&& p <= k < q
                &&& statement_at(src, ts, k, q, stmts.last())
                &&& statements_at(src, ts, p, k, stmts.drop_last())
            }
    }
}

/// One statement covering tokens `p..q` exactly: the constructor matches the
/// keyword, the declared names sit at their tokens, and the statement's
/// expressions cover their own ranges.
pub open spec fn statement_at(
    src: Seq<u8>,
    ts: Seq<SpannedToken>,
    p: int,
    q: int,
    st: Statement,
) -> bool
    decreases q - p, 50int, st,
    when 0 <= p && 0 <= q - p && q <= ts.len()
{
    match st {
        Statement::FunctionDefinition(f) => {
            &&& p + 2 < q <= ts.len()
            &&& ts[p].token == Token::Function
            &&& ts[p + 1].token == Token::Identifier
            &&& f.id.span == ts[p + 1].span
            &&& ts[p + 2].token == Token::OpenParentheses
            &&& exists|r: int, bend: int|
                #![trigger cut(ts, r), cut(ts, bend)]
                {
                    &&& cut(ts, r)
                    &&& cut(ts, bend)
                    &&& p + 3 <= r < bend <= q
                    &&& parameters_at(src, ts, p + 3, r, f.parameters@)
                    &&& ts[r].token == Token::CloseParentheses
                    &&& signature_tail_at(src, ts, p, r, bend, q, *f)
                }
        },
        Statement::ExternFunctionDeclaration(d) => {
            &&& p + 3 < q <= ts.len()
            &&& ts[p].token == Token::Identifier
            &&& is_external_kw(src, ts[p].span)
            &&& ts[p + 1].token == Token::Function
            &&& ts[p + 2].token == Token::Identifier
            &&& d.id.span == ts[p + 2].span
            &&& ts[p + 3].token == Token::OpenParentheses
            &&& exists|r: int|
                #![trigger cut(ts, r)]
                {
                    &&& cut(ts, r)
                    &&& p + 4 <= r < q
                    &&& parameters_at(src, ts, p + 4, r, d.parameters@)
                    &&& ts[r].token == Token::CloseParentheses
                    &&& {
                        let nxt = return_annotation_end(ts, r + 1, d.return_id);
                        nxt == q || (nxt + 1 == q && nxt < ts.len() && ts[nxt].token
                            == Token::Semicolon)
                    }
                }
        },
        Statement::VariableDefinition(v) => {
            &&& p + 4 < q <= ts.len()
            &&& ts[p].token == Token::Let
            &&& ts[p + 1].token == Token::Identifier
            &&& v.id.span == ts[p + 1].span
            &&& ts[p + 2].token == Token::Colon
            &&& ts[p + 3].token == Token::Identifier
            &&& v.type_id.span == ts[p + 3].span
            &&& ts[p + 4].token == Token::Equals
            &&& ts[q - 1].token == Token::Semicolon
            &&& expression_at(src, ts, p + 5, q - 1, v.initialize_expression)
        },
        Statement::Return(rr) => {
            &&& p < q <= ts.len()
            &&& ts[p].token == Token::Return
            &&& ts[q - 1].token == Token::Semicolon
            &&& expression_at(src, ts, p + 1, q - 1, rr.expression)
        },
    }
}

/// Where a return-type annotation written at `p` ends: past `: name` or
/// `-> name` when the signature declares one, at `p` when it does not (and
/// no annotation may stand there).
pub open spec fn return_annotation_end(
    ts: Seq<SpannedToken>,
    p: int,
    return_id: Option<Identifier>,
) -> int {
    match return_id {
        Some(rid) => if p + 1 < ts.len() && (ts[p].token == Token::Colon || ts[p].token
            == Token::Arrow) && ts[p + 1].token == Token::Identifier && rid.span == ts[p
            + 1].span {
            p + 2
        } else {
            -1
        },
        Option::None => if p < ts.len() && (ts[p].token == Token::Colon || ts[p].token
            == Token::Arrow) {
            -1
        } else {
            p
        },
    }
}

/// The tail of a function definition after its parameter list ending at `r`:
/// the return annotation, then the body — a block, or `=>` and an
/// expression — ending at `bend`, then an optional semicolon up to `q`.
pub open spec fn signature_tail_at(
    src: Seq<u8>,
    ts: Seq<SpannedToken>,
    p: int,
    r: int,
    bend: int,
    q: int,
    f: FunctionDefinitionStatement,
) -> bool
    decreases q - p, 45int, f,
    when 0 <= p && p + 3 <= r < bend <= q && q <= ts.len()
{
    let nxt = return_annotation_end(ts, r + 1, f.return_id);
    &&& nxt >= r + 1
    &&& (q == bend || (q == bend + 1 && bend < ts.len() && ts[bend].token == Token::Semicolon))
    &&& if nxt < ts.len() && ts[nxt].token == Token::OpenBrace {
        nxt < bend && expression_at(src, ts, nxt, bend, f.body)
    } else {
        &&& nxt < ts.len() && ts[nxt].token == Token::FatArrow
        &&& nxt + 1 < bend
        &&& expression_at(src, ts, nxt + 1, bend, f.body)
    }
}

/// Parameters in order between the parentheses of a signature, commas
/// between them, covering tokens `p..r` exactly.
pub open spec fn parameters_at(
    src: Seq<u8>,
    ts: Seq<SpannedToken>,
    p: int,
    r: int,
    ps: Seq<Parameter>,
) -> bool
    decreases r - p, 56int, ps,
    when 0 <= p && 0 <= r - p && r <= ts.len()
{
    if ps.len() == 0 {
        p == r
    } else if ps.len() == 1 {
        p < r && param_at(ts, p, ps.last()) == Some(r)
    } else {
        &&& p < r
        &&& exists|k: int|
            #![trigger cut(ts, k)]
            {
                &&& cut(ts, k)
                &&& p < k < r
                &&& ts[k].token == Token::Comma
                &&& param_at(ts, k + 1, ps.last()) == Some(r)
                &&& parameters_at(src, ts, p, k, ps.drop_last())
            }
    }
}

/// A primary form is an expression: the precedence ladder passes it through
/// unchanged when no prefix operator heads its tokens.
proof fn lemma_expression_at_of_primary(
    src: Seq<u8>,
    ts: Seq<SpannedToken>,
    i: int,
    j: int,
    e: Expression,
)
    requires
        0 <= i < ts.len(),
        i < j <= ts.len(),
        !is_unary_op(ts[i].token),
        primary_at(src, ts, i, j, e),
    ensures
        expression_at(src, ts, i, j, e),
{
    assert(postfix_at(src, ts, i, j, e));
    assert(unary_at(src, ts, i, j, e));
    assert(multiplicative_at(src, ts, i, j, e));
    assert(additive_at(src, ts, i, j, e));
    assert(comparison_at(src, ts, i, j, e));
    assert(and_at(src, ts, i, j, e));
    assert(or_at(src, ts, i, j, e));
}

// ---------------------------------------------------------------------------
// Expressions.
// ---------------------------------------------------------------------------

/// Parses one expression starting at token `i`: it succeeds exactly when
/// [`parses_expression`] says one starts there, and ends exactly where that
/// says. On success the tree is well formed and its span runs exactly from
/// the first consumed token's offset to the last consumed token's end.
pub fn parse_expression(source: &Vec<u8>, tokens: &Vec<SpannedToken>, i: usize) -> (r: Result<
    (Expression, usize),
    ParseError,
>)
    requires
        tokens_wf(tokens@, source@.len() as nat),
        i <= tokens@.len(),
    ensures
        (r is Ok) == (parses_expression(source@, tokens@, i as int) is Some),
        r matches Ok((e, j)) ==> {
            &&& i < j <= tokens@.len()
            &&& parses_expression(source@, tokens@, i as int) == Some(j as int)
            &&& expression_wf(e, source@.len() as nat)
            &&& e.span.offset == tokens@[i as int].span.offset
            &&& e.span.offset + e.span.len == tokens@[j - 1].span.offset + tokens@[j - 1].span.len
        },
        r matches Ok((e, j)) ==> expression_at(source@, tokens@, i as int, j as int, e),
    decreases tokens@.len() - i, 12int,
{
    parse_or_expression(source, tokens, i)
}

#[verifier::rlimit(100)]
#[verifier::spinoff_prover]
fn parse_or_expression(source: &Vec<u8>, tokens: &Vec<SpannedToken>, i: usize) -> (r: Result<
    (Expression, usize),
    ParseError,
>)
    requires
        tokens_wf(tokens@, source@.len() as nat),
        i <= tokens@.len(),
    ensures
        (r is Ok) == (parses_or(source@, tokens@, i as int) is Some),
        r matches Ok((e, j)) ==> {
            &&& i < j <= tokens@.len()
            &&& parses_or(source@, tokens@, i as int) == Some(j as int)
            &&& expression_wf(e, source@.len() as nat)
            &&& e.span.offset == tokens@[i as int].span.offset
            &&& e.span.offset + e.span.len == tokens@[j - 1].span.offset + tokens@[j - 1].span.len
        },
        r matches Ok((e, j)) ==> or_at(source@, tokens@, i as int, j as int, e),
    decreases tokens@.len() - i, 11int,
{
    let token_count: usize = tokens.len();
    let source_len: usize = source.len();

    let (mut e, mut j) = match parse_and_expression(source, tokens, i) {
        Ok(x) => x,
        Err(er) => {
            return Err(er);
        },
    };
    #[verifier::loop_isolation(false)]
    while j < tokens.len() && (tokens[j].token == Token::DoublePipe || tokens[j].token
        == Token::Or)
        invariant
            i < j <= tokens@.len(),
            or_at(source@, tokens@, i as int, j as int, e),
            parses_or(source@, tokens@, i as int) == parses_or_rest(source@, tokens@, j as int),
            expression_wf(e, source@.len() as nat),
            e.span.offset == tokens@[i as int].span.offset,
            e.span.offset + e.span.len == tokens@[j - 1].span.offset + tokens@[j - 1].span.len,
        decreases tokens@.len() - j,
    {
        let (rhs, j2) = match parse_and_expression(source, tokens, j + 1) {
            Ok(x) => x,
            Err(er) => {
                return Err(er);
            },
        };
        proof {
            lemma_span_join(tokens@, source@.len() as nat, i as int, j2 - 1);
            assert(cut(tokens@, j as int));
        }
        let span = Span::new(e.span.offset, rhs.span.offset + rhs.span.len - e.span.offset);
        e = Expression {
            kind: ExpressionKind::Binary(
                Box::new(BinaryExpression { operator: BinaryOperator::Or, left: e, right: rhs }),
            ),
            span,
        };
        j = j2;
    }
    Ok((e, j))
}

#[verifier::rlimit(100)]
#[verifier::spinoff_prover]
fn parse_and_expression(source: &Vec<u8>, tokens: &Vec<SpannedToken>, i: usize) -> (r: Result<
    (Expression, usize),
    ParseError,
>)
    requires
        tokens_wf(tokens@, source@.len() as nat),
        i <= tokens@.len(),
    ensures
        (r is Ok) == (parses_and(source@, tokens@, i as int) is Some),
        r matches Ok((e, j)) ==> {
            &&& i < j <= tokens@.len()
            &&& parses_and(source@, tokens@, i as int) == Some(j as int)
            &&& expression_wf(e, source@.len() as nat)
            &&& e.span.offset == tokens@[i as int].span.offset
            &&& e.span.offset + e.span.len == tokens@[j - 1].span.offset + tokens@[j - 1].span.len
        },
        r matches Ok((e, j)) ==> and_at(source@, tokens@, i as int, j as int, e),
    decreases tokens@.len() - i, 10int,
{
    let token_count: usize = tokens.len();
    let source_len: usize = source.len();

    let (mut e, mut j) = match parse_comparison_expression(source, tokens, i) {
        Ok(x) => x,
        Err(er) => {
            return Err(er);
        },
    };
    #[verifier::loop_isolation(false)]
    while j < tokens.len() && (tokens[j].token == Token::DoubleAmpersand || tokens[j].token
        == Token::And)
        invariant
            i < j <= tokens@.len(),
            and_at(source@, tokens@, i as int, j as int, e),
            parses_and(source@, tokens@, i as int) == parses_and_rest(source@, tokens@, j as int),
            expression_wf(e, source@.len() as nat),
            e.span.offset == tokens@[i as int].span.offset,
            e.span.offset + e.span.len == tokens@[j - 1].span.offset + tokens@[j - 1].span.len,
        decreases tokens@.len() - j,
    {
        let (rhs, j2) = match parse_comparison_expression(source, tokens, j + 1) {
            Ok(x) => x,
            Err(er) => {
                return Err(er);
            },
        };
        proof {
            lemma_span_join(tokens@, source@.len() as nat, i as int, j2 - 1);
            assert(cut(tokens@, j as int));
        }
        let span = Span::new(e.span.offset, rhs.span.offset + rhs.span.len - e.span.offset);
        e = Expression {
            kind: ExpressionKind::Binary(
                Box::new(BinaryExpression { operator: BinaryOperator::And, left: e, right: rhs }),
            ),
            span,
        };
        j = j2;
    }
    Ok((e, j))
}

#[verifier::rlimit(100)]
#[verifier::spinoff_prover]
fn parse_comparison_expression(source: &Vec<u8>, tokens: &Vec<SpannedToken>, i: usize) -> (r:
    Result<(Expression, usize), ParseError>)
    requires
        tokens_wf(tokens@, source@.len() as nat),
        i <= tokens@.len(),
    ensures
        (r is Ok) == (parses_comparison(source@, tokens@, i as int) is Some),
        r matches Ok((e, j)) ==> {
            &&& i < j <= tokens@.len()
            &&& parses_comparison(source@, tokens@, i as int) == Some(j as int)
            &&& expression_wf(e, source@.len() as nat)
            &&& e.span.offset == tokens@[i as int].span.offset
            &&& e.span.offset + e.span.len == tokens@[j - 1].span.offset + tokens@[j - 1].span.len
        },
        r matches Ok((e, j)) ==> comparison_at(source@, tokens@, i as int, j as int, e),
    decreases tokens@.len() - i, 9int,
{
    let token_count: usize = tokens.len();
    let source_len: usize = source.len();

    let (mut e, mut j) = match parse_additive_expression(source, tokens, i) {
        Ok(x) => x,
        Err(er) => {
            return Err(er);
        },
    };
    #[verifier::loop_isolation(false)]
    while j < tokens.len() && (tokens[j].token == Token::DoubleEquals || tokens[j].token
        == Token::LessThan || tokens[j].token == Token::LessEqualThan || tokens[j].token
        == Token::GreaterThan || tokens[j].token == Token::GreaterEqualThan)
        invariant
            i < j <= tokens@.len(),
            comparison_at(source@, tokens@, i as int, j as int, e),
            parses_comparison(source@, tokens@, i as int) == parses_comparison_rest(source@, tokens@, j as int),
            expression_wf(e, source@.len() as nat),
            e.span.offset == tokens@[i as int].span.offset,
            e.span.offset + e.span.len == tokens@[j - 1].span.offset + tokens@[j - 1].span.len,
        decreases tokens@.len() - j,
    {
        let operator = match tokens[j].token {
            Token::DoubleEquals => BinaryOperator::Equal,
            Token::LessThan => BinaryOperator::LessThan,
            Token::LessEqualThan => BinaryOperator::LessEqualThan,
            Token::GreaterThan => BinaryOperator::GreaterThan,
            _ => BinaryOperator::GreaterEqualThan,
        };
        let (rhs, j2) = match parse_additive_expression(source, tokens, j + 1) {
            Ok(x) => x,
            Err(er) => {
                return Err(er);
            },
        };
        proof {
            lemma_span_join(tokens@, source@.len() as nat, i as int, j2 - 1);
            assert(cut(tokens@, j as int));
        }
        let span = Span::new(e.span.offset, rhs.span.offset + rhs.span.len - e.span.offset);
        e = Expression {
            kind: ExpressionKind::Binary(
                Box::new(BinaryExpression { operator, left: e, right: rhs }),
            ),
            span,
        };
        j = j2;
    }
    Ok((e, j))
}

#[verifier::rlimit(100)]
#[verifier::spinoff_prover]
fn parse_additive_expression(source: &Vec<u8>, tokens: &Vec<SpannedToken>, i: usize) -> (r:
    Result<(Expression, usize), ParseError>)
    requires
        tokens_wf(tokens@, source@.len() as nat),
        i <= tokens@.len(),
    ensures
        (r is Ok) == (parses_additive(source@, tokens@, i as int) is Some),
        r matches Ok((e, j)) ==> {
            &&& i < j <= tokens@.len()
            &&& parses_additive(source@, tokens@, i as int) == Some(j as int)
            &&& expression_wf(e, source@.len() as nat)
            &&& e.span.offset == tokens@[i as int].span.offset
            &&& e.span.offset + e.span.len == tokens@[j - 1].span.offset + tokens@[j - 1].span.len
        },
        r matches Ok((e, j)) ==> additive_at(source@, tokens@, i as int, j as int, e),
    decreases tokens@.len() - i, 8int,
{
    let token_count: usize = tokens.len();
    let source_len: usize = source.len();

    let (mut e, mut j) = match parse_multiplicative_expression(source, tokens, i) {
        Ok(x) => x,
        Err(er) => {
            return Err(er);
        },
    };
    #[verifier::loop_isolation(false)]
    while j < tokens.len() && (tokens[j].token == Token::Plus || tokens[j].token == Token::Minus)
        invariant
            i < j <= tokens@.len(),
            additive_at(source@, tokens@, i as int, j as int, e),
            parses_additive(source@, tokens@, i as int) == parses_additive_rest(source@, tokens@, j as int),
            expression_wf(e, source@.len() as nat),
            e.span.offset == tokens@[i as int].span.offset,
            e.span.offset + e.span.len == tokens@[j - 1].span.offset + tokens@[j - 1].span.len,
        decreases tokens@.len() - j,
    {
        let operator = if tokens[j].token == Token::Plus {
            BinaryOperator::Plus
        } else {
            BinaryOperator::Minus
        };
        let (rhs, j2) = match parse_multiplicative_expression(source, tokens, j + 1) {
            Ok(x) => x,
            Err(er) => {
                return Err(er);
            },
        };
        proof {
            lemma_span_join(tokens@, source@.len() as nat, i as int, j2 - 1);
            assert(cut(tokens@, j as int));
        }
        let span = Span::new(e.span.offset, rhs.span.offset + rhs.span.len - e.span.offset);
        e = Expression {
            kind: ExpressionKind::Binary(
                Box::new(BinaryExpression { operator, left: e, right: rhs }),
            ),
            span,
        };
        j = j2;
    }
    Ok((e, j))
}

#[verifier::rlimit(100)]
#[verifier::spinoff_prover]
fn parse_multiplicative_expression(source: &Vec<u8>, tokens: &Vec<SpannedToken>, i: usize) -> (r:
    Result<(Expression, usize), ParseError>)
    requires
        tokens_wf(tokens@, source@.len() as nat),
        i <= tokens@.len(),
    ensures
        (r is Ok) == (parses_multiplicative(source@, tokens@, i as int) is Some),
        r matches Ok((e, j)) ==> {
            &&& i < j <= tokens@.len()
            &&& parses_multiplicative(source@, tokens@, i as int) == Some(j as int)
            &&& expression_wf(e, source@.len() as nat)
            &&& e.span.offset == tokens@[i as int].span.offset
            &&& e.span.offset + e.span.len == tokens@[j - 1].span.offset + tokens@[j - 1].span.len
        },
        r matches Ok((e, j)) ==> multiplicative_at(source@, tokens@, i as int, j as int, e),
    decreases tokens@.len() - i, 7int,
{
    let token_count: usize = tokens.len();
    let source_len: usize = source.len();

    let (mut e, mut j) = match parse_unary_expression(source, tokens, i) {
        Ok(x) => x,
        Err(er) => {
            return Err(er);
        },
    };
    #[verifier::loop_isolation(false)]
    while j < tokens.len() && (tokens[j].token == Token::Asterisk || tokens[j].token
        == Token::Slash)
        invariant
            i < j <= tokens@.len(),
            multiplicative_at(source@, tokens@, i as int, j as int, e),
            parses_multiplicative(source@, tokens@, i as int) == parses_multiplicative_rest(source@, tokens@, j as int),
            expression_wf(e, source@.len() as nat),
            e.span.offset == tokens@[i as int].span.offset,
            e.span.offset + e.span.len == tokens@[j - 1].span.offset + tokens@[j - 1].span.len,
        decreases tokens@.len() - j,
    {
        let operator = if tokens[j].token == Token::Asterisk {
            BinaryOperator::Multiplication
        } else {
            BinaryOperator::Division
        };
        let (rhs, j2) = match parse_unary_expression(source, tokens, j + 1) {
            Ok(x) => x,
            Err(er) => {
                return Err(er);
            },
        };
        proof {
            lemma_span_join(tokens@, source@.len() as nat, i as int, j2 - 1);
            assert(cut(tokens@, j as int));
        }
        let span = Span::new(e.span.offset, rhs.span.offset + rhs.span.len - e.span.offset);
        e = Expression {
            kind: ExpressionKind::Binary(
                Box::new(BinaryExpression { operator, left: e, right: rhs }),
            ),
            span,
        };
        j = j2;
    }
    Ok((e, j))
}

#[verifier::rlimit(100)]
#[verifier::spinoff_prover]
fn parse_unary_expression(source: &Vec<u8>, tokens: &Vec<SpannedToken>, i: usize) -> (r: Result<
    (Expression, usize),
    ParseError,
>)
    requires
        tokens_wf(tokens@, source@.len() as nat),
        i <= tokens@.len(),
    ensures
        (r is Ok) == (parses_unary(source@, tokens@, i as int) is Some),
        r matches Ok((e, j)) ==> {
            &&& i < j <= tokens@.len()
            &&& parses_unary(source@, tokens@, i as int) == Some(j as int)
            &&& expression_wf(e, source@.len() as nat)
            &&& e.span.offset == tokens@[i as int].span.offset
            &&& e.span.offset + e.span.len == tokens@[j - 1].span.offset + tokens@[j - 1].span.len
        },
        r matches Ok((e, j)) ==> unary_at(source@, tokens@, i as int, j as int, e),
    decreases tokens@.len() - i, 6int,
{
    let token_count: usize = tokens.len();
    let source_len: usize = source.len();

    if i < tokens.len() && (tokens[i].token == Token::Minus || tokens[i].token == Token::Bang
        || tokens[i].token == Token::Not || tokens[i].token == Token::Asterisk) {
        let operator = match tokens[i].token {
            Token::Minus => UnaryOperator::Minus,
            Token::Bang => UnaryOperator::Not,
            Token::Not => UnaryOperator::Not,
            _ => UnaryOperator::Deref,
        };
        let (inner, j) = match parse_unary_expression(source, tokens, i + 1) {
            Ok(x) => x,
            Err(er) => {
                return Err(er);
            },
        };
        proof {
            lemma_span_join(tokens@, source@.len() as nat, i as int, j - 1);
        }
        let span = Span::new(
            tokens[i].span.offset,
            inner.span.offset + inner.span.len - tokens[i].span.offset,
        );
        Ok(
            (
                Expression {
                    kind: ExpressionKind::Unary(
                        Box::new(UnaryExpression { operator, expression: inner }),
                    ),
                    span,
                },
                j,
            ),
        )
    } else {
        parse_postfix_expression(source, tokens, i)
    }
}

/// Parses a call's argument list from its opening parenthesis to just past
/// the closing one, per [`parses_call_suffix`].
#[verifier::rlimit(100)]
#[verifier::spinoff_prover]
fn parse_call_arguments(source: &Vec<u8>, tokens: &Vec<SpannedToken>, j: usize) -> (r: Result<
    (Vec<Expression>, usize),
    ParseError,
>)
    requires
        tokens_wf(tokens@, source@.len() as nat),
        j < tokens@.len(),
        tokens@[j as int].token == Token::OpenParentheses,
    ensures
        (r is Ok) == (parses_call_suffix(source@, tokens@, j as int) is Some),
        r matches Ok((args, k)) ==> {
            &&& j < k <= tokens@.len()
            &&& parses_call_suffix(source@, tokens@, j as int) == Some(k as int)
            &&& k >= j + 2
            &&& tokens@[k - 1].token == Token::CloseParentheses
            &&& expression_list_at(source@, tokens@, j + 1, k - 1, args@)
            &&& forall|a: int|
                0 <= a < args@.len() ==> expression_wf(#[trigger] args@[a], source@.len() as nat)
        },
    decreases tokens@.len() - j, 5int,
{
    let token_count: usize = tokens.len();
    let mut arguments: Vec<Expression> = Vec::new();
    let mut k = j + 1;
    if k < tokens.len() && tokens[k].token == Token::CloseParentheses {
        return Ok((arguments, k + 1));
    }
    let (arg0, k0) = match parse_expression(source, tokens, k) {
        Ok(x) => x,
        Err(er) => {
            return Err(er);
        },
    };
    arguments.push(arg0);
    k = k0;
    while k < tokens.len() && tokens[k].token == Token::Comma
        invariant
            tokens_wf(tokens@, source@.len() as nat),
            j < k <= tokens@.len(),
            arguments@.len() > 0,
            expression_list_at(source@, tokens@, j + 1, k as int, arguments@),
            parses_call_suffix(source@, tokens@, j as int) == (
            match parses_expression_list_rest(source@, tokens@, k as int) {
                Some(m) => spec_expect(tokens@, m, Token::CloseParentheses),
                Option::None => Option::None,
            }),
            forall|a: int|
                0 <= a < arguments@.len() ==> expression_wf(
                    #[trigger] arguments@[a],
                    source@.len() as nat,
                ),
        decreases tokens@.len() - k,
    {
        let source_len: usize = source.len();
        let ghost comma = k as int;
        let ghost before = arguments@;
        let (arg, k2) = match parse_expression(source, tokens, k + 1) {
            Ok(x) => x,
            Err(er) => {
                return Err(er);
            },
        };
        arguments.push(arg);
        proof {
            assert(arguments@.drop_last() =~= before);
            assert(cut(tokens@, comma));
        }
        k = k2;
    }
    let k3 = match expect(tokens, k, Token::CloseParentheses) {
        Ok(x) => x,
        Err(er) => {
            return Err(er);
        },
    };
    Ok((arguments, k3))
}

#[verifier::rlimit(100)]
#[verifier::spinoff_prover]
fn parse_postfix_expression(source: &Vec<u8>, tokens: &Vec<SpannedToken>, i: usize) -> (r: Result<
    (Expression, usize),
    ParseError,
>)
    requires
        tokens_wf(tokens@, source@.len() as nat),
        i <= tokens@.len(),
    ensures
        (r is Ok) == (parses_postfix(source@, tokens@, i as int) is Some),
        r matches Ok((e, j)) ==> {
            &&& i < j <= tokens@.len()
            &&& parses_postfix(source@, tokens@, i as int) == Some(j as int)
            &&& expression_wf(e, source@.len() as nat)
            &&& e.span.offset == tokens@[i as int].span.offset
            &&& e.span.offset + e.span.len == tokens@[j - 1].span.offset + tokens@[j - 1].span.len
        },
        r matches Ok((e, j)) ==> postfix_at(source@, tokens@, i as int, j as int, e),
    decreases tokens@.len() - i, 5int,
{
    let token_count: usize = tokens.len();
    let source_len: usize = source.len();

    let (mut e, mut j) = match parse_primary_expression(source, tokens, i) {
        Ok(x) => x,
        Err(er) => {
            return Err(er);
        },
    };
    while j < tokens.len() && (tokens[j].token == Token::OpenParentheses || tokens[j].token
        == Token::OpenBracket)
        invariant
            tokens_wf(tokens@, source@.len() as nat),
            i < j <= tokens@.len(),
            postfix_at(source@, tokens@, i as int, j as int, e),
            parses_postfix(source@, tokens@, i as int) == parses_postfix_rest(
                source@,
                tokens@,
                j as int,
            ),
            expression_wf(e, source@.len() as nat),
            e.span.offset == tokens@[i as int].span.offset,
            e.span.offset + e.span.len == tokens@[j - 1].span.offset + tokens@[j - 1].span.len,
        decreases tokens@.len() - j,
    {
        let source_len: usize = source.len();
        if tokens[j].token == Token::OpenParentheses {
            let (arguments, k) = match parse_call_arguments(source, tokens, j) {
                Ok(x) => x,
                Err(er) => {
                    return Err(er);
                },
            };
            proof {
                lemma_span_join(tokens@, source@.len() as nat, i as int, k - 1);
                assert(cut(tokens@, j as int));
            }
            let span = Span::new(
                e.span.offset,
                tokens[k - 1].span.offset + tokens[k - 1].span.len - e.span.offset,
            );
            e = Expression {
                kind: ExpressionKind::Call(Box::new(CallExpression { callee: e, arguments })),
                span,
            };
            j = k;
        } else {
            let (offset_e, k) = match parse_expression(source, tokens, j + 1) {
                Ok(x) => x,
                Err(er) => {
                    return Err(er);
                },
            };
            let k2 = match expect(tokens, k, Token::CloseBracket) {
                Ok(x) => x,
                Err(er) => {
                    return Err(er);
                },
            };
            proof {
                lemma_span_join(tokens@, source@.len() as nat, i as int, k2 - 1);
                assert(cut(tokens@, j as int));
            }
            let span = Span::new(
                e.span.offset,
                tokens[k2 - 1].span.offset + tokens[k2 - 1].span.len - e.span.offset,
            );
            e = Expression {
                kind: ExpressionKind::Access(Box::new(AccessExpression { base: e, offset: offset_e })),
                span,
            };
            j = k2;
        }
    }
    Ok((e, j))
}

/// Builds the literal node for an integer-literal token: the numeric part's
/// span, and the suffix part's span when the token records one.
fn parse_literal_primary(source: &Vec<u8>, tokens: &Vec<SpannedToken>, i: usize) -> (r: Result<
    (Expression, usize),
    ParseError,
>)
    requires
        tokens_wf(tokens@, source@.len() as nat),
        i < tokens@.len(),
        tokens@[i as int].token matches Token::Literal(LiteralKind::Integer { .. }),
    ensures
        r matches Ok((e, j)) ==> {
            &&& j == i + 1
            &&& expression_wf(e, source@.len() as nat)
            &&& e.span == tokens@[i as int].span
            &&& tokens@[i as int].token matches Token::Literal(
                LiteralKind::Integer { suffix_offset },
            )
            &&& e.kind matches ExpressionKind::Literal(Literal::Int { literal, suffix })
            &&& literal.offset == tokens@[i as int].span.offset
            &&& match suffix_offset {
                Option::None => suffix is None && literal.len == tokens@[i as int].span.len,
                Some(off) => {
                    &&& literal.len == off
                    &&& suffix matches Some(sp)
                    &&& sp.offset == tokens@[i as int].span.offset + off
                    &&& sp.len == tokens@[i as int].span.len - off
                },
            }
        },
        r is Ok,
{
    let token_count: usize = tokens.len();
    let source_len: usize = source.len();
    let st = tokens[i];
    proof {
        lemma_span_join(tokens@, source@.len() as nat, i as int, i as int);
    }
    match st.token {
        Token::Literal(LiteralKind::Integer { suffix_offset }) => {
            let lit = match suffix_offset {
                Option::None => Literal::Int { literal: st.span, suffix: Option::None },
                Some(off) => Literal::Int {
                    literal: Span::new(st.span.offset, off),
                    suffix: Some(Span::new(st.span.offset + off, st.span.len - off)),
                },
            };
            Ok((Expression { kind: ExpressionKind::Literal(lit), span: st.span }, i + 1))
        },
        _ => Err(ParseError::InvalidToken { span: st.span }),
    }
}

/// Parses a parenthesized expression: the produced node keeps the inner
/// expression's kind under a span that includes the parentheses.
#[verifier::rlimit(100)]
#[verifier::spinoff_prover]
fn parse_parenthesized_primary(source: &Vec<u8>, tokens: &Vec<SpannedToken>, i: usize) -> (r:
    Result<(Expression, usize), ParseError>)
    requires
        tokens_wf(tokens@, source@.len() as nat),
        i < tokens@.len(),
        tokens@[i as int].token == Token::OpenParentheses,
    ensures
        (r is Ok) == (parses_primary(source@, tokens@, i as int) is Some),
        r matches Ok((e, j)) ==> {
            &&& i < j <= tokens@.len()
            &&& parses_primary(source@, tokens@, i as int) == Some(j as int)
            &&& expression_wf(e, source@.len() as nat)
            &&& e.span.offset == tokens@[i as int].span.offset
            &&& e.span.offset + e.span.len == tokens@[j - 1].span.offset + tokens@[j - 1].span.len
        },
        r matches Ok((e, j)) ==> primary_at(source@, tokens@, i as int, j as int, e),
    decreases tokens@.len() - i, 3int,
{
    let token_count: usize = tokens.len();
    let source_len: usize = source.len();
    let st = tokens[i];
    let (inner, j) = match parse_expression(source, tokens, i + 1) {
        Ok(x) => x,
        Err(er) => {
            return Err(er);
        },
    };
    let j2 = match expect(tokens, j, Token::CloseParentheses) {
        Ok(x) => x,
        Err(er) => {
            return Err(er);
        },
    };
    proof {
        lemma_span_join(tokens@, source@.len() as nat, i as int, j2 - 1);
        lemma_span_join(tokens@, source@.len() as nat, i as int + 1, j2 - 2);
        assert(inner == (Expression {
            kind: inner.kind,
            span: Span {
                offset: tokens@[i as int + 1].span.offset,
                len: (tokens@[j2 - 2].span.offset + tokens@[j2 - 2].span.len - tokens@[i as int
                    + 1].span.offset) as usize,
            },
        }));
    }
    let span = Span::new(
        st.span.offset,
        tokens[j2 - 1].span.offset + tokens[j2 - 1].span.len - st.span.offset,
    );
    Ok((Expression { kind: inner.kind, span }, j2))
}

/// Parses an array literal: brackets around comma-separated elements.
#[verifier::rlimit(100)]
#[verifier::spinoff_prover]
fn parse_array_primary(source: &Vec<u8>, tokens: &Vec<SpannedToken>, i: usize) -> (r: Result<
    (Expression, usize),
    ParseError,
>)
    requires
        tokens_wf(tokens@, source@.len() as nat),
        i < tokens@.len(),
        tokens@[i as int].token == Token::OpenBracket,
    ensures
        (r is Ok) == (parses_primary(source@, tokens@, i as int) is Some),
        r matches Ok((e, j)) ==> {
            &&& i < j <= tokens@.len()
            &&& parses_primary(source@, tokens@, i as int) == Some(j as int)
            &&& expression_wf(e, source@.len() as nat)
            &&& e.span.offset == tokens@[i as int].span.offset
            &&& e.span.offset + e.span.len == tokens@[j - 1].span.offset + tokens@[j - 1].span.len
        },
        r matches Ok((e, j)) ==> primary_at(source@, tokens@, i as int, j as int, e),
    decreases tokens@.len() - i, 3int,
{
    let token_count: usize = tokens.len();
    let source_len: usize = source.len();
    let st = tokens[i];
    let (elements, k) = match parse_array_elements(source, tokens, i) {
        Ok(x) => x,
        Err(er) => {
            return Err(er);
        },
    };
    proof {
        lemma_span_join(tokens@, source@.len() as nat, i as int, k - 1);
    }
    let span = Span::new(
        st.span.offset,
        tokens[k - 1].span.offset + tokens[k - 1].span.len - st.span.offset,
    );
    let e = Expression { kind: ExpressionKind::Array { elements }, span };
    proof {
        assert(primary_at(source@, tokens@, i as int, k as int, e));
    }
    Ok((e, k))
}

/// Parses the elements of an array literal from its opening bracket to just
/// past the closing one.
#[verifier::rlimit(100)]
#[verifier::spinoff_prover]
fn parse_array_elements(source: &Vec<u8>, tokens: &Vec<SpannedToken>, i: usize) -> (r: Result<
    (Vec<Expression>, usize),
    ParseError,
>)
    requires
        tokens_wf(tokens@, source@.len() as nat),
        i < tokens@.len(),
        tokens@[i as int].token == Token::OpenBracket,
    ensures
        (r is Ok) == (parses_array_suffix(source@, tokens@, i as int) is Some),
        r matches Ok((els, k)) ==> {
            &&& i + 1 < k <= tokens@.len()
            &&& parses_array_suffix(source@, tokens@, i as int) == Some(k as int)
            &&& tokens@[k - 1].token == Token::CloseBracket
            &&& expression_list_at(source@, tokens@, i + 1, k - 1, els@)
            &&& forall|a: int|
                0 <= a < els@.len() ==> expression_wf(#[trigger] els@[a], source@.len() as nat)
        },
    decreases tokens@.len() - i, 2int,
{
    let token_count: usize = tokens.len();
    let mut elements: Vec<Expression> = Vec::new();
    let mut k = i + 1;
    if k < tokens.len() && tokens[k].token == Token::CloseBracket {
        return Ok((elements, k + 1));
    }
    let (el0, k0) = match parse_expression(source, tokens, k) {
        Ok(x) => x,
        Err(er) => {
            return Err(er);
        },
    };
    elements.push(el0);
    k = k0;
    #[verifier::loop_isolation(false)]
    while k < tokens.len() && tokens[k].token == Token::Comma
        invariant
            i < k <= tokens@.len(),
            elements@.len() > 0,
            expression_list_at(source@, tokens@, i as int + 1, k as int, elements@),
            parses_expression_list(source@, tokens@, i as int + 1)
                == parses_expression_list_rest(source@, tokens@, k as int),
            forall|a: int|
                0 <= a < elements@.len() ==> expression_wf(
                    #[trigger] elements@[a],
                    source@.len() as nat,
                ),
        decreases tokens@.len() - k,
    {
        let ghost comma = k as int;
        let ghost before = elements@;
        let (el, k2) = match parse_expression(source, tokens, k + 1) {
            Ok(x) => x,
            Err(er) => {
                return Err(er);
            },
        };
        elements.push(el);
        proof {
            assert(elements@.drop_last() =~= before);
            assert(cut(tokens@, comma));
        }
        k = k2;
    }
    let k3 = match expect(tokens, k, Token::CloseBracket) {
        Ok(x) => x,
        Err(er) => {
            return Err(er);
        },
    };
    Ok((elements, k3))
}

#[verifier::rlimit(100)]
#[verifier::spinoff_prover]
fn parse_primary_expression(source: &Vec<u8>, tokens: &Vec<SpannedToken>, i: usize) -> (r: Result<
    (Expression, usize),
    ParseError,
>)
    requires
        tokens_wf(tokens@, source@.len() as nat),
        i <= tokens@.len(),
    ensures
        (r is Ok) == (parses_primary(source@, tokens@, i as int) is Some),
        r matches Ok((e, j)) ==> {
            &&& i < j <= tokens@.len()
            &&& parses_primary(source@, tokens@, i as int) == Some(j as int)
            &&& expression_wf(e, source@.len() as nat)
            &&& e.span.offset == tokens@[i as int].span.offset
            &&& e.span.offset + e.span.len == tokens@[j - 1].span.offset + tokens@[j - 1].span.len
        },
        r matches Ok((e, j)) ==> primary_at(source@, tokens@, i as int, j as int, e),
    decreases tokens@.len() - i, 4int,
{
    let token_count: usize = tokens.len();
    let source_len: usize = source.len();

    if i >= tokens.len() {
        return Err(
            ParseError::UnexpectedEndOfInput {
                expected: vec![Token::Identifier, Token::OpenParentheses, Token::OpenBrace],
            },
        );
    }
    let st = tokens[i];
    match st.token {
        Token::Literal(LiteralKind::Integer { suffix_offset }) => parse_literal_primary(
            source,
            tokens,
            i,
        ),
        Token::True => Ok(
            (
                Expression { kind: ExpressionKind::Literal(Literal::Boolean(true)), span: st.span },
                i + 1,
            ),
        ),
        Token::False => Ok(
            (
                Expression {
                    kind: ExpressionKind::Literal(Literal::Boolean(false)),
                    span: st.span,
                },
                i + 1,
            ),
        ),
        Token::Identifier => Ok(
            (
                Expression {
                    kind: ExpressionKind::Identifier(Identifier { span: st.span }),
                    span: st.span,
                },
                i + 1,
            ),
        ),
        Token::OpenParentheses => parse_parenthesized_primary(source, tokens, i),
        Token::OpenBracket => parse_array_primary(source, tokens, i),
        Token::OpenBrace => parse_block_expression(source, tokens, i),
        Token::If => parse_if_expression(source, tokens, i),
        Token::Unknown => Err(ParseError::InvalidToken { span: st.span }),
        _ => Err(
            ParseError::UnexpectedToken {
                found: st,
                expected: vec![Token::Identifier, Token::OpenParentheses, Token::OpenBrace],
            },
        ),
    }
}

/// Parses `if condition block else (block | if)`. The whole form is an
/// expression: both branches must be present.
#[verifier::rlimit(100)]
#[verifier::spinoff_prover]
fn parse_if_expression(source: &Vec<u8>, tokens: &Vec<SpannedToken>, i: usize) -> (r: Result<
    (Expression, usize),
    ParseError,
>)
    requires
        tokens_wf(tokens@, source@.len() as nat),
        i < tokens@.len(),
        tokens@[i as int].token == Token::If,
    ensures
        (r is Ok) == (parses_if(source@, tokens@, i as int) is Some),
        r matches Ok((e, j)) ==> {
            &&& i < j <= tokens@.len()
            &&& parses_if(source@, tokens@, i as int) == Some(j as int)
            &&& expression_wf(e, source@.len() as nat)
            &&& e.span.offset == tokens@[i as int].span.offset
            &&& e.span.offset + e.span.len == tokens@[j - 1].span.offset + tokens@[j - 1].span.len
        },
        r matches Ok((e, j)) ==> primary_at(source@, tokens@, i as int, j as int, e),
    decreases tokens@.len() - i, 3int,
{
    let token_count: usize = tokens.len();
    let source_len: usize = source.len();

    let (condition, j) = match parse_expression(source, tokens, i + 1) {
        Ok(x) => x,
        Err(er) => {
            return Err(er);
        },
    };
    if j >= tokens.len() || tokens[j].token != Token::OpenBrace {
        if j >= tokens.len() {
            return Err(ParseError::UnexpectedEndOfInput { expected: vec![Token::OpenBrace] });
        }
        return Err(
            ParseError::UnexpectedToken { found: tokens[j], expected: vec![Token::OpenBrace] },
        );
    }
    let (true_path, j2) = match parse_block_expression(source, tokens, j) {
        Ok(x) => x,
        Err(er) => {
            return Err(er);
        },
    };
    let j3 = match expect(tokens, j2, Token::Else) {
        Ok(x) => x,
        Err(er) => {
            return Err(er);
        },
    };
    let (false_path, j4) = if j3 < tokens.len() && tokens[j3].token == Token::If {
        match parse_if_expression(source, tokens, j3) {
            Ok(x) => x,
            Err(er) => {
                return Err(er);
            },
        }
    } else {
        if j3 >= tokens.len() || tokens[j3].token != Token::OpenBrace {
            if j3 >= tokens.len() {
                return Err(
                    ParseError::UnexpectedEndOfInput { expected: vec![Token::OpenBrace, Token::If] },
                );
            }
            return Err(
                ParseError::UnexpectedToken {
                    found: tokens[j3],
                    expected: vec![Token::OpenBrace, Token::If],
                },
            );
        }
        match parse_block_expression(source, tokens, j3) {
            Ok(x) => x,
            Err(er) => {
                return Err(er);
            },
        }
    };
    proof {
        lemma_span_join(tokens@, source@.len() as nat, i as int, j4 - 1);
        assert(cut(tokens@, j as int));
        assert(cut(tokens@, j2 as int));
        lemma_expression_at_of_primary(source@, tokens@, j as int, j2 as int, true_path);
        lemma_expression_at_of_primary(source@, tokens@, j3 as int, j4 as int, false_path);
    }
    let span = Span::new(
        tokens[i].span.offset,
        false_path.span.offset + false_path.span.len - tokens[i].span.offset,
    );
    Ok(
        (
            Expression {
                kind: ExpressionKind::If(
                    Box::new(IfExpression { condition, true_path, false_path }),
                ),
                span,
            },
            j4,
        ),
    )
}

/// Parses `{ statement* expression? }` into a block expression.
#[verifier::rlimit(100)]
#[verifier::spinoff_prover]
fn parse_block_expression(source: &Vec<u8>, tokens: &Vec<SpannedToken>, i: usize) -> (r: Result<
    (Expression, usize),
    ParseError,
>)
    requires
        tokens_wf(tokens@, source@.len() as nat),
        i < tokens@.len(),
        tokens@[i as int].token == Token::OpenBrace,
    ensures
        (r is Ok) == (parses_block(source@, tokens@, i as int) is Some),
        r matches Ok((e, j)) ==> {
            &&& i < j <= tokens@.len()
            &&& parses_block(source@, tokens@, i as int) == Some(j as int)
            &&& expression_wf(e, source@.len() as nat)
            &&& e.span.offset == tokens@[i as int].span.offset
            &&& e.span.offset + e.span.len == tokens@[j - 1].span.offset + tokens@[j - 1].span.len
        },
        r matches Ok((e, j)) ==> primary_at(source@, tokens@, i as int, j as int, e),
    decreases tokens@.len() - i, 2int,
{
    let token_count: usize = tokens.len();
    let source_len: usize = source.len();

    let mut statements: Vec<Statement> = Vec::new();
    let mut j = i + 1;
    #[verifier::loop_isolation(false)]
    while j < tokens.len() && starts_statement(source, tokens, j)
        invariant
            i < j <= tokens@.len(),
            statements_at(source@, tokens@, i as int + 1, j as int, statements@),
            parses_block(source@, tokens@, i as int) == parses_block_rest(
                source@,
                tokens@,
                j as int,
            ),
            forall|a: int|
                0 <= a < statements@.len() ==> statement_wf(
                    #[trigger] statements@[a],
                    source@.len() as nat,
                ),
        decreases tokens@.len() - j,
    {
        let ghost start = j as int;
        let ghost before = statements@;
        let (st, j2) = match parse_statement(source, tokens, j) {
            Ok(x) => x,
            Err(er) => {
                return Err(er);
            },
        };
        statements.push(st);
        proof {
            assert(statements@.drop_last() =~= before);
            assert(cut(tokens@, start));
        }
        j = j2;
    }
    let ghost stmts_end = j as int;
    let return_expression: Option<Expression> = if j < tokens.len() && tokens[j].token
        == Token::CloseBrace {
        Option::None
    } else {
        let (e, j2) = match parse_expression(source, tokens, j) {
            Ok(x) => x,
            Err(er) => {
                return Err(er);
            },
        };
        j = j2;
        Some(e)
    };
    proof {
        assert(cut(tokens@, stmts_end));
    }
    let j3 = match expect(tokens, j, Token::CloseBrace) {
        Ok(x) => x,
        Err(er) => {
            return Err(er);
        },
    };
    proof {
        lemma_span_join(tokens@, source@.len() as nat, i as int, j3 - 1);
    }
    let span = Span::new(
        tokens[i].span.offset,
        tokens[j3 - 1].span.offset + tokens[j3 - 1].span.len - tokens[i].span.offset,
    );
    let blk = BlockExpression { statements, return_expression };
    proof {
        assert(forall|a: int|
            0 <= a < blk.statements@.len() ==> statement_wf(
                #[trigger] blk.statements@[a],
                source@.len() as nat,
            ));
        assert(block_wf(blk, source@.len() as nat));
    }
    Ok((Expression { kind: ExpressionKind::Block(Box::new(blk)), span }, j3))
}

// ---------------------------------------------------------------------------
// Statements.
// ---------------------------------------------------------------------------

/// Parses the parameter list between the parentheses of a signature:
/// `name (: type)?`, comma-separated, possibly empty. Stops before the
/// closing parenthesis, which the caller consumes.
#[verifier::rlimit(100)]
#[verifier::spinoff_prover]
fn parse_parameters(source: &Vec<u8>, tokens: &Vec<SpannedToken>, i: usize) -> (r: Result<
    (Vec<Parameter>, usize),
    ParseError,
>)
    requires
        tokens_wf(tokens@, source@.len() as nat),
        i <= tokens@.len(),
    ensures
        (r is Ok) == (parses_parameters(source@, tokens@, i as int) is Some),
        r matches Ok((ps, j)) ==> {
            &&& i <= j <= tokens@.len()
            &&& parses_parameters(source@, tokens@, i as int) == Some(j as int)
            &&& forall|a: int|
                0 <= a < ps@.len() ==> parameter_wf(#[trigger] ps@[a], source@.len() as nat)
        },
        (i < tokens@.len() && tokens@[i as int].token == Token::CloseParentheses) ==> (r matches
            Ok((ps, j)) && ps@.len() == 0 && j == i),
        r matches Ok((ps, j)) ==> parameters_at(source@, tokens@, i as int, j as int, ps@),
{
    let token_count: usize = tokens.len();
    let mut parameters: Vec<Parameter> = Vec::new();
    if i < tokens.len() && tokens[i].token == Token::CloseParentheses {
        return Ok((parameters, i));
    }
    let (p0, mut j) = match parse_parameter(source, tokens, i) {
        Ok(x) => x,
        Err(er) => {
            return Err(er);
        },
    };
    parameters.push(p0);
    #[verifier::loop_isolation(false)]
    while j < tokens.len() && tokens[j].token == Token::Comma
        invariant
            i < j <= tokens@.len(),
            parameters@.len() > 0,
            parameters_at(source@, tokens@, i as int, j as int, parameters@),
            parses_parameters_rest(source@, tokens@, i as int) == parses_parameters_tail(
                source@,
                tokens@,
                j as int,
            ),
            forall|a: int|
                0 <= a < parameters@.len() ==> parameter_wf(
                    #[trigger] parameters@[a],
                    source@.len() as nat,
                ),
        decreases tokens@.len() - j,
    {
        let ghost comma = j as int;
        let ghost before = parameters@;
        let (p, j2) = match parse_parameter(source, tokens, j + 1) {
            Ok(x) => x,
            Err(er) => {
                return Err(er);
            },
        };
        parameters.push(p);
        proof {
            assert(parameters@.drop_last() =~= before);
            assert(cut(tokens@, comma));
        }
        j = j2;
    }
    Ok((parameters, j))
}

/// Parses one parameter: a name, optionally followed by `:` and a type
/// name, per [`parses_parameter`].
fn parse_parameter(source: &Vec<u8>, tokens: &Vec<SpannedToken>, i: usize) -> (r: Result<
    (Parameter, usize),
    ParseError,
>)
    requires
        tokens_wf(tokens@, source@.len() as nat),
        i <= tokens@.len(),
    ensures
        (r is Ok) == (parses_parameter(tokens@, i as int) is Some),
        r matches Ok((p, j)) ==> {
            &&& i < j <= tokens@.len()
            &&& parses_parameter(tokens@, i as int) == Some(j as int)
            &&& param_at(tokens@, i as int, p) == Some(j as int)
            &&& parameter_wf(p, source@.len() as nat)
        },
{
    let token_count: usize = tokens.len();
    let j1 = match expect(tokens, i, Token::Identifier) {
        Ok(x) => x,
        Err(er) => {
            return Err(er);
        },
    };
    let id = Identifier { span: tokens[i].span };
    if j1 < tokens.len() && tokens[j1].token == Token::Colon {
        let j2 = match expect(tokens, j1 + 1, Token::Identifier) {
            Ok(x) => x,
            Err(er) => {
                return Err(er);
            },
        };
        let type_id = Some(Identifier { span: tokens[j1 + 1].span });
        Ok((Parameter { id, type_id }, j2))
    } else {
        Ok((Parameter { id, type_id: Option::None }, j1))
    }
}

/// Parses one statement: a function definition, an external function
/// declaration, a variable definition or a return statement.
#[verifier::rlimit(100)]
#[verifier::spinoff_prover]
pub fn parse_statement(source: &Vec<u8>, tokens: &Vec<SpannedToken>, i: usize) -> (r: Result<
    (Statement, usize),
    ParseError,
>)
    requires
        tokens_wf(tokens@, source@.len() as nat),
        i < tokens@.len(),
    ensures
        (r is Ok) == (parses_statement(source@, tokens@, i as int) is Some),
        r matches Ok((st, j)) ==> statement_at(source@, tokens@, i as int, j as int, st),
        r matches Ok((st, j)) ==> {
            &&& i < j <= tokens@.len()
            &&& parses_statement(source@, tokens@, i as int) == Some(j as int)
            &&& statement_wf(st, source@.len() as nat)
        },
    decreases tokens@.len() - i, 13int,
{
    let token_count: usize = tokens.len();

    match tokens[i].token {
        Token::Function => parse_function_definition(source, tokens, i),
        Token::Let => parse_variable_definition(source, tokens, i),
        Token::Return => parse_return_statement(source, tokens, i),
        Token::Identifier => {
            if check_external_kw(source, tokens[i].span) && i + 1 < tokens.len() && tokens[i
                + 1].token == Token::Function {
                parse_external_declaration(source, tokens, i)
            } else {
                Err(
                    ParseError::UnexpectedToken {
                        found: tokens[i],
                        expected: vec![Token::Function, Token::Let, Token::Return],
                    },
                )
            }
        },
        Token::Unknown => Err(ParseError::InvalidToken { span: tokens[i].span }),
        _ => Err(
            ParseError::UnexpectedToken {
                found: tokens[i],
                expected: vec![Token::Function, Token::Let, Token::Return],
            },
        ),
    }
}

/// Parses `fn name(params) (: type)? => expression ;?`.
#[verifier::rlimit(100)]
#[verifier::spinoff_prover]
fn parse_function_definition(source: &Vec<u8>, tokens: &Vec<SpannedToken>, i: usize) -> (r: Result<
    (Statement, usize),
    ParseError,
>)
    requires
        tokens_wf(tokens@, source@.len() as nat),
        i < tokens@.len(),
        tokens@[i as int].token == Token::Function,
    ensures
        (r is Ok) == (parses_function_definition(source@, tokens@, i as int) is Some),
        r matches Ok((st, j)) ==> {
            &&& i < j <= tokens@.len()
            &&& parses_function_definition(source@, tokens@, i as int) == Some(j as int)
            &&& statement_wf(st, source@.len() as nat)
        },
        r matches Ok((st, j)) ==> statement_at(source@, tokens@, i as int, j as int, st),
    decreases tokens@.len() - i, 12int,
{
    let token_count: usize = tokens.len();

    let j1 = match expect(tokens, i + 1, Token::Identifier) {
        Ok(x) => x,
        Err(er) => {
            return Err(er);
        },
    };
    let id = Identifier { span: tokens[i + 1].span };
    let j2 = match expect(tokens, j1, Token::OpenParentheses) {
        Ok(x) => x,
        Err(er) => {
            return Err(er);
        },
    };
    let (parameters, j3) = match parse_parameters(source, tokens, j2) {
        Ok(x) => x,
        Err(er) => {
            return Err(er);
        },
    };
    let j4 = match expect(tokens, j3, Token::CloseParentheses) {
        Ok(x) => x,
        Err(er) => {
            return Err(er);
        },
    };
    let mut return_id: Option<Identifier> = Option::None;
    let mut j5 = j4;
    if j5 < tokens.len() && (tokens[j5].token == Token::Colon || tokens[j5].token == Token::Arrow) {
        let j6 = match expect(tokens, j5 + 1, Token::Identifier) {
            Ok(x) => x,
            Err(er) => {
                return Err(er);
            },
        };
        return_id = Some(Identifier { span: tokens[j5 + 1].span });
        j5 = j6;
    }
    // The body is written `=> expression`, or directly as a block.
    let (body, j8) = if j5 < tokens.len() && tokens[j5].token == Token::OpenBrace {
        match parse_block_expression(source, tokens, j5) {
            Ok(x) => x,
            Err(er) => {
                return Err(er);
            },
        }
    } else {
        let j7 = match expect(tokens, j5, Token::FatArrow) {
            Ok(x) => x,
            Err(er) => {
                return Err(er);
            },
        };
        match parse_expression(source, tokens, j7) {
            Ok(x) => x,
            Err(er) => {
                return Err(er);
            },
        }
    };
    let j9 = if j8 < tokens.len() && tokens[j8].token == Token::Semicolon {
        j8 + 1
    } else {
        j8
    };
    proof {
        assert(cut(tokens@, j3 as int));
        assert(cut(tokens@, j8 as int));
        if j5 < token_count && tokens@[j5 as int].token == Token::OpenBrace {
            lemma_expression_at_of_primary(source@, tokens@, j5 as int, j8 as int, body);
        }
    }
    Ok(
        (
            Statement::FunctionDefinition(
                Box::new(FunctionDefinitionStatement { id, parameters, return_id, body }),
            ),
            j9,
        ),
    )
}

/// Parses an external function declaration: the external keyword, then
/// `fn name(params) (: type)? ;?` with no body.
#[verifier::rlimit(100)]
#[verifier::spinoff_prover]
fn parse_external_declaration(source: &Vec<u8>, tokens: &Vec<SpannedToken>, i: usize) -> (r:
    Result<(Statement, usize), ParseError>)
    requires
        tokens_wf(tokens@, source@.len() as nat),
        i + 1 < tokens@.len(),
        tokens@[i as int].token == Token::Identifier,
        is_external_kw(source@, tokens@[i as int].span),
        tokens@[i + 1].token == Token::Function,
    ensures
        (r is Ok) == (parses_external_declaration(source@, tokens@, i as int) is Some),
        r matches Ok((st, j)) ==> {
            &&& i < j <= tokens@.len()
            &&& parses_external_declaration(source@, tokens@, i as int) == Some(j as int)
            &&& statement_wf(st, source@.len() as nat)
        },
        r matches Ok((st, j)) ==> statement_at(source@, tokens@, i as int, j as int, st),
    decreases tokens@.len() - i, 12int,
{
    let token_count: usize = tokens.len();

    let j1 = match expect(tokens, i + 2, Token::Identifier) {
        Ok(x) => x,
        Err(er) => {
            return Err(er);
        },
    };
    let id = Identifier { span: tokens[i + 2].span };
    let j2 = match expect(tokens, j1, Token::OpenParentheses) {
        Ok(x) => x,
        Err(er) => {
            return Err(er);
        },
    };
    let (parameters, j3) = match parse_parameters(source, tokens, j2) {
        Ok(x) => x,
        Err(er) => {
            return Err(er);
        },
    };
    let j4 = match expect(tokens, j3, Token::CloseParentheses) {
        Ok(x) => x,
        Err(er) => {
            return Err(er);
        },
    };
    let mut return_id: Option<Identifier> = Option::None;
    let mut j5 = j4;
    if j5 < tokens.len() && (tokens[j5].token == Token::Colon || tokens[j5].token == Token::Arrow) {
        let j6 = match expect(tokens, j5 + 1, Token::Identifier) {
            Ok(x) => x,
            Err(er) => {
                return Err(er);
            },
        };
        return_id = Some(Identifier { span: tokens[j5 + 1].span });
        j5 = j6;
    }
    let j7 = if j5 < tokens.len() && tokens[j5].token == Token::Semicolon {
        j5 + 1
    } else {
        j5
    };
    proof {
        assert(cut(tokens@, j3 as int));
    }
    Ok(
        (
            Statement::ExternFunctionDeclaration(
                Box::new(ExternFunctionDeclarationStatement { id, parameters, return_id }),
            ),
            j7,
        ),
    )
}

/// Parses `let name : type = expression ;`.
#[verifier::rlimit(100)]
#[verifier::spinoff_prover]
fn parse_variable_definition(source: &Vec<u8>, tokens: &Vec<SpannedToken>, i: usize) -> (r: Result<
    (Statement, usize),
    ParseError,
>)
    requires
        tokens_wf(tokens@, source@.len() as nat),
        i < tokens@.len(),
        tokens@[i as int].token == Token::Let,
    ensures
        (r is Ok) == (parses_variable_definition(source@, tokens@, i as int) is Some),
        r matches Ok((st, j)) ==> {
            &&& i < j <= tokens@.len()
            &&& parses_variable_definition(source@, tokens@, i as int) == Some(j as int)
            &&& statement_wf(st, source@.len() as nat)
        },
        r matches Ok((st, j)) ==> statement_at(source@, tokens@, i as int, j as int, st),
    decreases tokens@.len() - i, 12int,
{
    let token_count: usize = tokens.len();

    let j1 = match expect(tokens, i + 1, Token::Identifier) {
        Ok(x) => x,
        Err(er) => {
            return Err(er);
        },
    };
    let id = Identifier { span: tokens[i + 1].span };
    let j2 = match expect(tokens, j1, Token::Colon) {
        Ok(x) => x,
        Err(er) => {
            return Err(er);
        },
    };
    let j3 = match expect(tokens, j2, Token::Identifier) {
        Ok(x) => x,
        Err(er) => {
            return Err(er);
        },
    };
    let type_id = Identifier { span: tokens[j2].span };
    let j4 = match expect(tokens, j3, Token::Equals) {
        Ok(x) => x,
        Err(er) => {
            return Err(er);
        },
    };
    let (initialize_expression, j5) = match parse_expression(source, tokens, j4) {
        Ok(x) => x,
        Err(er) => {
            return Err(er);
        },
    };
    let j6 = match expect(tokens, j5, Token::Semicolon) {
        Ok(x) => x,
        Err(er) => {
            return Err(er);
        },
    };
    Ok(
        (
            Statement::VariableDefinition(
                Box::new(VariableDefinitionStatement { id, type_id, initialize_expression }),
            ),
            j6,
        ),
    )
}

/// Parses `return expression ;`.
#[verifier::rlimit(100)]
#[verifier::spinoff_prover]
fn parse_return_statement(source: &Vec<u8>, tokens: &Vec<SpannedToken>, i: usize) -> (r: Result<
    (Statement, usize),
    ParseError,
>)
    requires
        tokens_wf(tokens@, source@.len() as nat),
        i < tokens@.len(),
        tokens@[i as int].token == Token::Return,
    ensures
        (r is Ok) == (parses_return_statement(source@, tokens@, i as int) is Some),
        r matches Ok((st, j)) ==> {
            &&& i < j <= tokens@.len()
            &&& parses_return_statement(source@, tokens@, i as int) == Some(j as int)
            &&& statement_wf(st, source@.len() as nat)
        },
        r matches Ok((st, j)) ==> statement_at(source@, tokens@, i as int, j as int, st),
    decreases tokens@.len() - i, 12int,
{
    let token_count: usize = tokens.len();

    let (expression, j1) = match parse_expression(source, tokens, i + 1) {
        Ok(x) => x,
        Err(er) => {
            return Err(er);
        },
    };
    let j2 = match expect(tokens, j1, Token::Semicolon) {
        Ok(x) => x,
        Err(er) => {
            return Err(er);
        },
    };
    Ok((Statement::Return(Box::new(ReturnStatement { expression })), j2))
}

/// Parses a whole compilation unit: statements until the input ends. A
/// token that cannot start a statement at module scope is an extra token;
/// a byte sequence no token matches is an invalid token. On success every
/// span of the tree lies within the source buffer.
#[verifier::rlimit(100)]
#[verifier::spinoff_prover]
pub fn parse_root_module(source: &Vec<u8>) -> (r: Result<ModuleStatement, ParseError>)
    ensures
        (r is Ok) == parses_module(source@, token_seq(source@, 0), 0),
        r matches Ok(m) ==> module_wf(m, source@.len() as nat),
        r matches Ok(m) ==> statements_at(
            source@,
            token_seq(source@, 0),
            0,
            token_seq(source@, 0).len() as int,
            m.statements@,
        ),
        token_seq(source@, 0) == Seq::<SpannedToken>::empty() <==> (r matches Ok(m)
            && m.statements@.len() == 0),
{
    let tokens = tokenize(source);
    let mut statements: Vec<Statement> = Vec::new();
    let mut i: usize = 0;
    #[verifier::loop_isolation(false)]
    while i < tokens.len()
        invariant
            0 <= i <= tokens@.len(),
            tokens_wf(tokens@, source@.len() as nat),
            parses_module(source@, tokens@, 0) == parses_module(source@, tokens@, i as int),
            statements_at(source@, tokens@, 0, i as int, statements@),
            i > 0 ==> statements@.len() > 0,
            statements@.len() <= i,
            forall|a: int|
                0 <= a < statements@.len() ==> statement_wf(
                    #[trigger] statements@[a],
                    source@.len() as nat,
                ),
        decreases tokens@.len() - i,
    {
        if matches!(tokens[i].token, Token::Unknown) {
            return Err(ParseError::InvalidToken { span: tokens[i].span });
        }
        if !starts_statement(source, &tokens, i) {
            return Err(ParseError::ExtraToken { found: tokens[i] });
        }
        let ghost start = i as int;
        let ghost before = statements@;
        let (st, j) = match parse_statement(source, &tokens, i) {
            Ok(x) => x,
            Err(er) => {
                return Err(er);
            },
        };
        statements.push(st);
        proof {
            assert(statements@.drop_last() =~= before);
            assert(cut(tokens@, start));
        }
        i = j;
    }
    proof {
        assert(i as int == tokens@.len());
        if tokens@.len() == 0 {
            assert(token_seq(source@, 0).len() == 0);
            assert(token_seq(source@, 0) =~= Seq::<SpannedToken>::empty());
        } else {
            assert(i > 0);
            assert(statements@.len() > 0);
            assert(token_seq(source@, 0).len() == tokens@.len());
            assert(token_seq(source@, 0) != Seq::<SpannedToken>::empty());
        }
    }
    Ok(ModuleStatement { statements })
}

} // verus!
