//! The lexer: a total, position-tracked tokenizer over a byte buffer.
//!
//! `token_at` is the mathematical description of the lexer: it says, for any
//! position in the source, which token starts there and where it ends. The
//! executable functions are proved to follow it exactly. The lexer never
//! fails: bytes it does not recognise become `Unknown` tokens, to be rejected
//! later by the parser.

use vstd::prelude::*;

verus! {

/// A half-open byte range into the source buffer. AST nodes carry spans
/// rather than copies of the text; the text of a node is recovered by
/// re-slicing the source with its span.
#[derive(Clone, Copy, Debug, PartialEq, Eq, PartialOrd, Ord, Structural)]
pub struct Span {
    pub offset: usize,
    pub len: usize,
}

impl Span {
    /// A span lies within a source buffer of `n` bytes when its end does not
    /// pass the end of the buffer.
    pub open spec fn in_bounds(self, n: nat) -> bool {
        self.offset + self.len <= n
    }

    pub fn new(offset: usize, len: usize) -> (r: Self)
        ensures
            r.offset == offset,
            r.len == len,
    {
        Self { offset, len }
    }
}

/// The shape of a literal token. An integer literal is a run of digits and
/// underscores, optionally followed by an identifier run that names its type;
/// `suffix_offset` is the position of that suffix relative to the start of
/// the token, or `None` when there is no suffix.
#[derive(Clone, Copy, Debug, PartialEq, Eq, Structural)]
pub enum LiteralKind {
    Integer { suffix_offset: Option<usize> },
}

/// One lexical token. Its text is recovered by slicing the source with the
/// accompanying span; the token itself owns nothing.
#[derive(Clone, Copy, Debug, PartialEq, Eq, Structural)]
pub enum Token {
    /// ";"
    Semicolon,
    /// ":"
    Colon,
    /// ","
    Comma,
    /// "("
    OpenParentheses,
    /// ")"
    CloseParentheses,
    /// "{"
    OpenBrace,
    /// "}"
    CloseBrace,
    /// "["
    OpenBracket,
    /// "]"
    CloseBracket,
    /// "="
    Equals,
    /// "=="
    DoubleEquals,
    /// "=>"
    FatArrow,
    /// "->"
    Arrow,
    /// "+"
    Plus,
    /// "-"
    Minus,
    /// "*"
    Asterisk,
    /// "/"
    Slash,
    /// "%"
    Percent,
    /// "!"
    Bang,
    /// "<"
    LessThan,
    /// "<="
    LessEqualThan,
    /// ">"
    GreaterThan,
    /// ">="
    GreaterEqualThan,
    /// "&&"
    DoubleAmpersand,
    /// "||"
    DoublePipe,
    /// "fn"
    Function,
    /// "let"
    Let,
    /// "if"
    If,
    /// "else"
    Else,
    /// "return"
    Return,
    /// "true"
    True,
    /// "false"
    False,
    /// "not"
    Not,
    /// "and"
    And,
    /// "or"
    Or,
    /// an identifier
    Identifier,
    Literal(LiteralKind),

    WhiteSpace,
    Unknown,
}

/// A token together with the byte range of its text.
#[derive(Clone, Copy, Debug, PartialEq, Eq, Structural)]
pub struct SpannedToken {
    pub token: Token,
    pub span: Span,
}

impl SpannedToken {
    pub fn new(token: Token, span: Span) -> (r: Self)
        ensures
            r == (SpannedToken { token, span }),
    {
        Self { token, span }
    }
}

// ---------------------------------------------------------------------------
// Byte classes. Identifiers and numbers are ASCII; any other byte is left to
// the `Unknown` arm of the token table.
// ---------------------------------------------------------------------------

/// A byte that may start an identifier: a letter or an underscore.
pub open spec fn id_start(c: u8) -> bool {
    (97 <= c <= 122) || (65 <= c <= 90) || c == 95
}

/// A byte that may continue an identifier: a letter, a digit or an
/// underscore.
pub open spec fn id_continue(c: u8) -> bool {
    id_start(c) || (48 <= c <= 57)
}

/// A byte that starts an integer literal: a decimal digit.
pub open spec fn digit_start(c: u8) -> bool {
    48 <= c <= 57
}

/// A byte that may continue the numeric part of an integer literal: a digit
/// or a cosmetic underscore.
pub open spec fn digit_continue(c: u8) -> bool {
    digit_start(c) || c == 95
}

/// A whitespace byte: space, tab or newline.
pub open spec fn whitespace(c: u8) -> bool {
    c == 32 || c == 9 || c == 10
}

fn is_id_start(c: u8) -> (r: bool)
    ensures
        r == id_start(c),
{
    (c >= 97 && c <= 122) || (c >= 65 && c <= 90) || c == 95
}

fn is_id_continue(c: u8) -> (r: bool)
    ensures
        r == id_continue(c),
{
    is_id_start(c) || (c >= 48 && c <= 57)
}

fn is_decimal_digit(c: u8) -> (r: bool)
    ensures
        r == digit_continue(c),
{
    (c >= 48 && c <= 57) || c == 95
}

fn is_whitespace(c: u8) -> (r: bool)
    ensures
        r == whitespace(c),
{
    c == 32 || c == 9 || c == 10
}

// ---------------------------------------------------------------------------
// Maximal runs.
// ---------------------------------------------------------------------------

/// The end of the maximal run of bytes satisfying `cls` that starts at `i`.
pub open spec fn run_end(s: Seq<u8>, i: int, cls: spec_fn(u8) -> bool) -> int
    decreases s.len() - i,
    when 0 <= i <= s.len()
{
    if i < s.len() && cls(s[i]) {
        run_end(s, i + 1, cls)
    } else {
        i
    }
}

/// What makes `run_end` a maximal run: it stays within bounds, every byte
/// before it satisfies the class, and the byte at it (if any) does not.
pub proof fn lemma_run_end(s: Seq<u8>, i: int, cls: spec_fn(u8) -> bool)
    requires
        0 <= i <= s.len(),
    ensures
        i <= run_end(s, i, cls) <= s.len(),
        forall|k: int| i <= k < run_end(s, i, cls) ==> cls(#[trigger] s[k]),
        run_end(s, i, cls) < s.len() ==> !cls(s[run_end(s, i, cls)]),
    decreases s.len() - i,
{
    if i < s.len() && cls(s[i]) {
        lemma_run_end(s, i + 1, cls);
    }
}

/// Advances over the maximal identifier run starting at `from`.
fn eat_identifier(source: &Vec<u8>, from: usize) -> (end: usize)
    requires
        from <= source@.len(),
    ensures
        end == run_end(source@, from as int, |c: u8| id_continue(c)),
{
    let ghost cls = |c: u8| id_continue(c);
    let mut i: usize = from;
    #[verifier::loop_isolation(false)]
    while i < source.len() && is_id_continue(source[i])
        invariant
            from <= i <= source@.len(),
            run_end(source@, from as int, cls) == run_end(source@, i as int, cls),
        decreases source@.len() - i,
    {
        i = i + 1;
    }
    i
}

/// Advances over the maximal digit-or-underscore run starting at `from`.
fn eat_decimal_digits(source: &Vec<u8>, from: usize) -> (end: usize)
    requires
        from <= source@.len(),
    ensures
        end == run_end(source@, from as int, |c: u8| digit_continue(c)),
{
    let ghost cls = |c: u8| digit_continue(c);
    let mut i: usize = from;
    #[verifier::loop_isolation(false)]
    while i < source.len() && is_decimal_digit(source[i])
        invariant
            from <= i <= source@.len(),
            run_end(source@, from as int, cls) == run_end(source@, i as int, cls),
        decreases source@.len() - i,
    {
        i = i + 1;
    }
    i
}

/// Advances over the maximal whitespace run starting at `from`.
fn eat_whitespace(source: &Vec<u8>, from: usize) -> (end: usize)
    requires
        from <= source@.len(),
    ensures
        end == run_end(source@, from as int, |c: u8| whitespace(c)),
{
    let ghost cls = |c: u8| whitespace(c);
    let mut i: usize = from;
    #[verifier::loop_isolation(false)]
    while i < source.len() && is_whitespace(source[i])
        invariant
            from <= i <= source@.len(),
            run_end(source@, from as int, cls) == run_end(source@, i as int, cls),
        decreases source@.len() - i,
    {
        i = i + 1;
    }
    i
}

// ---------------------------------------------------------------------------
// Keywords. An identifier run is looked up in the keyword table only after
// the whole run is consumed, so "fnx" is an identifier, not "fn" then "x".
// ---------------------------------------------------------------------------

pub open spec fn is_kw_fn(w: Seq<u8>) -> bool {
    w.len() == 2 && w[0] == 102 && w[1] == 110
}

pub open spec fn is_kw_let(w: Seq<u8>) -> bool {
    w.len() == 3 && w[0] == 108 && w[1] == 101 && w[2] == 116
}

pub open spec fn is_kw_if(w: Seq<u8>) -> bool {
    w.len() == 2 && w[0] == 105 && w[1] == 102
}

pub open spec fn is_kw_else(w: Seq<u8>) -> bool {
    w.len() == 4 && w[0] == 101 && w[1] == 108 && w[2] == 115 && w[3] == 101
}

pub open spec fn is_kw_return(w: Seq<u8>) -> bool {
    w.len() == 6 && w[0] == 114 && w[1] == 101 && w[2] == 116 && w[3] == 117 && w[4] == 114
        && w[5] == 110
}

pub open spec fn is_kw_true(w: Seq<u8>) -> bool {
    w.len() == 4 && w[0] == 116 && w[1] == 114 && w[2] == 117 && w[3] == 101
}

pub open spec fn is_kw_false(w: Seq<u8>) -> bool {
    w.len() == 5 && w[0] == 102 && w[1] == 97 && w[2] == 108 && w[3] == 115 && w[4] == 101
}

pub open spec fn is_kw_not(w: Seq<u8>) -> bool {
    w.len() == 3 && w[0] == 110 && w[1] == 111 && w[2] == 116
}

pub open spec fn is_kw_and(w: Seq<u8>) -> bool {
    w.len() == 3 && w[0] == 97 && w[1] == 110 && w[2] == 100
}

pub open spec fn is_kw_or(w: Seq<u8>) -> bool {
    w.len() == 2 && w[0] == 111 && w[1] == 114
}

/// Whether an identifier run is one of the language's keywords.
pub open spec fn is_keyword(w: Seq<u8>) -> bool {
    ||| is_kw_fn(w)
    ||| is_kw_let(w)
    ||| is_kw_if(w)
    ||| is_kw_else(w)
    ||| is_kw_return(w)
    ||| is_kw_true(w)
    ||| is_kw_false(w)
    ||| is_kw_not(w)
    ||| is_kw_and(w)
    ||| is_kw_or(w)
}

/// The token an identifier run denotes: the matching keyword, or
/// `Identifier`.
pub open spec fn ident_token(w: Seq<u8>) -> Token {
    if is_kw_fn(w) {
        Token::Function
    } else if is_kw_let(w) {
        Token::Let
    } else if is_kw_if(w) {
        Token::If
    } else if is_kw_else(w) {
        Token::Else
    } else if is_kw_return(w) {
        Token::Return
    } else if is_kw_true(w) {
        Token::True
    } else if is_kw_false(w) {
        Token::False
    } else if is_kw_not(w) {
        Token::Not
    } else if is_kw_and(w) {
        Token::And
    } else if is_kw_or(w) {
        Token::Or
    } else {
        Token::Identifier
    }
}

/// Classifies the identifier run `source[from..end]` as a keyword or a plain
/// identifier.
fn keyword_or_identifier(source: &Vec<u8>, from: usize, end: usize) -> (t: Token)
    requires
        from <= end <= source@.len(),
    ensures
        t == ident_token(source@.subrange(from as int, end as int)),
{
    let n = end - from;
    // Keyword bytes are spelled as ASCII codes; the comment names the word.
    if n == 2 && source[from] == 102 && source[from + 1] == 110 {
        Token::Function  // fn
    } else if n == 3 && source[from] == 108 && source[from + 1] == 101 && source[from + 2] == 116 {
        Token::Let  // let
    } else if n == 2 && source[from] == 105 && source[from + 1] == 102 {
        Token::If  // if
    } else if n == 4 && source[from] == 101 && source[from + 1] == 108 && source[from + 2] == 115
        && source[from + 3] == 101 {
        Token::Else  // else
    } else if n == 6 && source[from] == 114 && source[from + 1] == 101 && source[from + 2] == 116
        && source[from + 3] == 117 && source[from + 4] == 114 && source[from + 5] == 110 {
        Token::Return  // return
    } else if n == 4 && source[from] == 116 && source[from + 1] == 114 && source[from + 2] == 117
        && source[from + 3] == 101 {
        Token::True  // true
    } else if n == 5 && source[from] == 102 && source[from + 1] == 97 && source[from + 2] == 108
        && source[from + 3] == 115 && source[from + 4] == 101 {
        Token::False  // false
    } else if n == 3 && source[from] == 110 && source[from + 1] == 111 && source[from + 2] == 116 {
        Token::Not  // not
    } else if n == 3 && source[from] == 97 && source[from + 1] == 110 && source[from + 2] == 100 {
        Token::And  // and
    } else if n == 2 && source[from] == 111 && source[from + 1] == 114 {
        Token::Or  // or
    } else {
        Token::Identifier
    }
}

// ---------------------------------------------------------------------------
// The token table: which token starts at a position, and where it ends.
// ---------------------------------------------------------------------------

/// The end of the identifier run starting at `i`.
pub open spec fn id_run_end(s: Seq<u8>, i: int) -> int {
    run_end(s, i, |c: u8| id_continue(c))
}

/// The end of the digit-or-underscore run starting at `i`.
pub open spec fn digit_run_end(s: Seq<u8>, i: int) -> int {
    run_end(s, i, |c: u8| digit_continue(c))
}

/// The end of the whitespace run starting at `i`.
pub open spec fn ws_run_end(s: Seq<u8>, i: int) -> int {
    run_end(s, i, |c: u8| whitespace(c))
}

/// The token that starts at position `i` of `s`, and the position just past
/// it. This is the lexer: longest-match with one byte of lookahead for the
/// two-byte punctuation, keyword lookup after a full identifier run, and a
/// type-suffix run glued onto an integer literal.
pub open spec fn token_at(s: Seq<u8>, i: int) -> (Token, int)
    recommends
        0 <= i < s.len(),
{
    let c = s[i];
    if whitespace(c) {
        (Token::WhiteSpace, ws_run_end(s, i))
    } else if c == 59 {  // ;
        (Token::Semicolon, i + 1)
    } else if c == 58 {  // :
        (Token::Colon, i + 1)
    } else if c == 44 {  // ,
        (Token::Comma, i + 1)
    } else if c == 40 {  // (
        (Token::OpenParentheses, i + 1)
    } else if c == 41 {  // )
        (Token::CloseParentheses, i + 1)
    } else if c == 123 {  // {
        (Token::OpenBrace, i + 1)
    } else if c == 125 {  // }
        (Token::CloseBrace, i + 1)
    } else if c == 91 {  // [
        (Token::OpenBracket, i + 1)
    } else if c == 93 {  // ]
        (Token::CloseBracket, i + 1)
    } else if c == 43 {  // +
        (Token::Plus, i + 1)
    } else if c == 45 {  // -
        if i + 1 < s.len() && s[i + 1] == 62 {  // >
            (Token::Arrow, i + 2)
        } else {
            (Token::Minus, i + 1)
        }
    } else if c == 42 {  // *
        (Token::Asterisk, i + 1)
    } else if c == 47 {  // /
        (Token::Slash, i + 1)
    } else if c == 37 {  // %
        (Token::Percent, i + 1)
    } else if c == 61 {  // =
        if i + 1 < s.len() && s[i + 1] == 61 {
            (Token::DoubleEquals, i + 2)
        } else if i + 1 < s.len() && s[i + 1] == 62 {
            (Token::FatArrow, i + 2)
        } else {
            (Token::Equals, i + 1)
        }
    } else if c == 60 {  // <
        if i + 1 < s.len() && s[i + 1] == 61 {
            (Token::LessEqualThan, i + 2)
        } else {
            (Token::LessThan, i + 1)
        }
    } else if c == 62 {  // >
        if i + 1 < s.len() && s[i + 1] == 61 {
            (Token::GreaterEqualThan, i + 2)
        } else {
            (Token::GreaterThan, i + 1)
        }
    } else if c == 33 {  // !
        (Token::Bang, i + 1)
    } else if c == 38 {  // &
        if i + 1 < s.len() && s[i + 1] == 38 {
            (Token::DoubleAmpersand, i + 2)
        } else {
            (Token::Unknown, i + 1)
        }
    } else if c == 124 {  // |
        if i + 1 < s.len() && s[i + 1] == 124 {
            (Token::DoublePipe, i + 2)
        } else {
            (Token::Unknown, i + 1)
        }
    } else if id_start(c) {
        let e = id_run_end(s, i);
        (ident_token(s.subrange(i, e)), e)
    } else if digit_start(c) {
        let ne = digit_run_end(s, i);
        if ne < s.len() && id_start(s[ne]) {
            (
                Token::Literal(LiteralKind::Integer { suffix_offset: Some((ne - i) as usize) }),
                id_run_end(s, ne),
            )
        } else {
            (Token::Literal(LiteralKind::Integer { suffix_offset: None }), ne)
        }
    } else {
        (Token::Unknown, i + 1)
    }
}

/// Every token makes progress and stays within the buffer.
pub proof fn lemma_token_at_bounds(s: Seq<u8>, i: int)
    requires
        0 <= i < s.len(),
    ensures
        i < token_at(s, i).1 <= s.len(),
{
    let c = s[i];
    if whitespace(c) {
        lemma_run_end(s, i, |b: u8| whitespace(b));
        assert(run_end(s, i, |b: u8| whitespace(b)) == run_end(s, i + 1, |b: u8| whitespace(b)));
        lemma_run_end(s, i + 1, |b: u8| whitespace(b));
    } else if id_start(c) {
        lemma_run_end(s, i, |b: u8| id_continue(b));
        assert(run_end(s, i, |b: u8| id_continue(b)) == run_end(s, i + 1, |b: u8| id_continue(b)));
        lemma_run_end(s, i + 1, |b: u8| id_continue(b));
    } else if digit_start(c) {
        lemma_run_end(s, i, |b: u8| digit_continue(b));
        assert(run_end(s, i, |b: u8| digit_continue(b)) == run_end(
            s,
            i + 1,
            |b: u8| digit_continue(b),
        ));
        lemma_run_end(s, i + 1, |b: u8| digit_continue(b));
        let ne = digit_run_end(s, i);
        if ne < s.len() && id_start(s[ne]) {
            lemma_run_end(s, ne, |b: u8| id_continue(b));
            assert(run_end(s, ne, |b: u8| id_continue(b)) == run_end(
                s,
                ne + 1,
                |b: u8| id_continue(b),
            ));
            lemma_run_end(s, ne + 1, |b: u8| id_continue(b));
        }
    }
}

/// Reads the token that starts at `pos`. Returns the token and the position
/// just past its text, or `None` at the end of the buffer. Follows the token
/// table `token_at` exactly.
pub fn parse_token(source: &Vec<u8>, pos: usize) -> (r: Option<(Token, usize)>)
    requires
        pos <= source@.len(),
    ensures
        pos == source@.len() ==> r is None,
        pos < source@.len() ==> {
            &&& r matches Some((t, end))
            &&& t == token_at(source@, pos as int).0
            &&& end as int == token_at(source@, pos as int).1
            &&& pos < end <= source@.len()
        },
{
    if pos >= source.len() {
        return None;
    }
    proof {
        lemma_token_at_bounds(source@, pos as int);
    }
    let c = source[pos];
    if is_whitespace(c) {
        let end = eat_whitespace(source, pos);
        Some((Token::WhiteSpace, end))
    } else if c == 59 {
        Some((Token::Semicolon, pos + 1))
    } else if c == 58 {
        Some((Token::Colon, pos + 1))
    } else if c == 44 {
        Some((Token::Comma, pos + 1))
    } else if c == 40 {
        Some((Token::OpenParentheses, pos + 1))
    } else if c == 41 {
        Some((Token::CloseParentheses, pos + 1))
    } else if c == 123 {
        Some((Token::OpenBrace, pos + 1))
    } else if c == 125 {
        Some((Token::CloseBrace, pos + 1))
    } else if c == 91 {
        Some((Token::OpenBracket, pos + 1))
    } else if c == 93 {
        Some((Token::CloseBracket, pos + 1))
    } else if c == 43 {
        Some((Token::Plus, pos + 1))
    } else if c == 45 {
        if pos + 1 < source.len() && source[pos + 1] == 62 {
            Some((Token::Arrow, pos + 2))
        } else {
            Some((Token::Minus, pos + 1))
        }
    } else if c == 42 {
        Some((Token::Asterisk, pos + 1))
    } else if c == 47 {
        Some((Token::Slash, pos + 1))
    } else if c == 37 {
        Some((Token::Percent, pos + 1))
    } else if c == 61 {
        if pos + 1 < source.len() && source[pos + 1] == 61 {
            Some((Token::DoubleEquals, pos + 2))
        } else if pos + 1 < source.len() && source[pos + 1] == 62 {
            Some((Token::FatArrow, pos + 2))
        } else {
            Some((Token::Equals, pos + 1))
        }
    } else if c == 60 {
        if pos + 1 < source.len() && source[pos + 1] == 61 {
            Some((Token::LessEqualThan, pos + 2))
        } else {
            Some((Token::LessThan, pos + 1))
        }
    } else if c == 62 {
        if pos + 1 < source.len() && source[pos + 1] == 61 {
            Some((Token::GreaterEqualThan, pos + 2))
        } else {
            Some((Token::GreaterThan, pos + 1))
        }
    } else if c == 33 {
        Some((Token::Bang, pos + 1))
    } else if c == 38 {
        if pos + 1 < source.len() && source[pos + 1] == 38 {
            Some((Token::DoubleAmpersand, pos + 2))
        } else {
            Some((Token::Unknown, pos + 1))
        }
    } else if c == 124 {
        if pos + 1 < source.len() && source[pos + 1] == 124 {
            Some((Token::DoublePipe, pos + 2))
        } else {
            Some((Token::Unknown, pos + 1))
        }
    } else if is_id_start(c) {
        let end = eat_identifier(source, pos);
        proof {
            lemma_run_end(source@, pos as int, |b: u8| id_continue(b));
        }
        Some((keyword_or_identifier(source, pos, end), end))
    } else if c >= 48 && c <= 57 {
        let numeric_end = eat_decimal_digits(source, pos);
        proof {
            lemma_run_end(source@, pos as int, |b: u8| digit_continue(b));
        }
        if numeric_end < source.len() && is_id_start(source[numeric_end]) {
            let end = eat_identifier(source, numeric_end);
            Some((
                Token::Literal(
                    LiteralKind::Integer { suffix_offset: Some(numeric_end - pos) },
                ),
                end,
            ))
        } else {
            Some((Token::Literal(LiteralKind::Integer { suffix_offset: None }), numeric_end))
        }
    } else {
        Some((Token::Unknown, pos + 1))
    }
}

/// The whole token sequence of the buffer from position `p` on, whitespace
/// dropped: what the parser consumes. Each token is followed by the sequence
/// starting where it ends.
pub open spec fn token_seq(s: Seq<u8>, p: int) -> Seq<SpannedToken>
    decreases s.len() - p,
    when 0 <= p <= s.len() && s.len() <= usize::MAX
    via token_seq_decreases
{
    if p >= s.len() {
        Seq::empty()
    } else {
        let t = token_at(s, p);
        if t.0 is WhiteSpace {
            token_seq(s, t.1)
        } else {
            seq![
                SpannedToken {
                    token: t.0,
                    span: Span { offset: p as usize, len: (t.1 - p) as usize },
                },
            ] + token_seq(s, t.1)
        }
    }
}

#[via_fn]
proof fn token_seq_decreases(s: Seq<u8>, p: int) {
    if p < s.len() {
        lemma_token_at_bounds(s, p);
    }
}

// ---------------------------------------------------------------------------
// The token stream.
// ---------------------------------------------------------------------------

/// A forward-only stream of spanned tokens over an owned source buffer,
/// restartable by constructing it anew.
#[derive(Debug)]
pub struct SpannedTokens {
    pub source: Vec<u8>,
    pub pos: usize,
}

impl SpannedTokens {
    /// The stream is well formed while its position lies within the buffer.
    pub open spec fn wf(self) -> bool {
        self.pos <= self.source@.len()
    }

    /// The bytes this stream reads.
    pub open spec fn src(self) -> Seq<u8> {
        self.source@
    }

    /// The current read position.
    pub open spec fn position(self) -> int {
        self.pos as int
    }

    pub fn new(source: Vec<u8>) -> (r: Self)
        ensures
            r.wf(),
            r.src() == source@,
            r.position() == 0,
    {
        Self { source, pos: 0 }
    }

    /// Yields the next token and advances past its text; `None` once the
    /// buffer is exhausted.
    pub fn next(&mut self) -> (r: Option<SpannedToken>)
        requires
            old(self).wf(),
        ensures
            final(self).wf(),
            final(self).src() == old(self).src(),
            old(self).position() == old(self).src().len() ==> {
                &&& r is None
                &&& final(self).position() == old(self).position()
            },
            old(self).position() < old(self).src().len() ==> {
                &&& r matches Some(st)
                &&& st.token == token_at(old(self).src(), old(self).position()).0
                &&& st.span.offset == old(self).position()
                &&& st.span.offset + st.span.len == token_at(old(self).src(), old(self).position()).1
                &&& final(self).position() == token_at(old(self).src(), old(self).position()).1
            },
    {
        match parse_token(&self.source, self.pos) {
            None => None,
            Some((token, end)) => {
                let span = Span::new(self.pos, end - self.pos);
                self.pos = end;
                Some(SpannedToken::new(token, span))
            }
        }
    }
}

// ---------------------------------------------------------------------------
// Laws of the lexer.
// ---------------------------------------------------------------------------

/// Any identifier-shaped input — a letter or underscore followed by letters,
/// digits and underscores — that is not a keyword lexes as exactly one
/// `Identifier` token spanning the whole input.
pub proof fn lemma_identifier_single_token(s: Seq<u8>)
    requires
        0 < s.len() <= usize::MAX,
        id_start(s[0]),
        forall|k: int| 0 <= k < s.len() ==> id_continue(#[trigger] s[k]),
        !is_keyword(s),
    ensures
        token_at(s, 0) == (Token::Identifier, s.len() as int),
        token_seq(s, 0) == seq![
            SpannedToken { token: Token::Identifier, span: Span { offset: 0, len: s.len() as usize } },
        ],
{
    let cls = |b: u8| id_continue(b);
    lemma_run_end(s, 0, cls);
    let e = run_end(s, 0, cls);
    assert(e == s.len());
    assert(s.subrange(0, e) =~= s);
    assert(token_seq(s, s.len() as int) =~= Seq::<SpannedToken>::empty());
    assert(token_seq(s, 0) =~= seq![
        SpannedToken { token: Token::Identifier, span: Span { offset: 0, len: s.len() as usize } },
    ]);
}

/// Any input made of digits and underscores that starts with a digit lexes
/// as exactly one unsuffixed integer literal spanning the whole input.
pub proof fn lemma_number_single_token(s: Seq<u8>)
    requires
        0 < s.len() <= usize::MAX,
        digit_start(s[0]),
        forall|k: int| 0 <= k < s.len() ==> digit_continue(#[trigger] s[k]),
    ensures
        token_at(s, 0) == (
            Token::Literal(LiteralKind::Integer { suffix_offset: None }),
            s.len() as int,
        ),
        token_seq(s, 0) == seq![
            SpannedToken {
                token: Token::Literal(LiteralKind::Integer { suffix_offset: None }),
                span: Span { offset: 0, len: s.len() as usize },
            },
        ],
{
    let cls = |b: u8| digit_continue(b);
    lemma_run_end(s, 0, cls);
    assert(run_end(s, 0, cls) == s.len());
    assert(token_seq(s, s.len() as int) =~= Seq::<SpannedToken>::empty());
    assert(token_seq(s, 0) =~= seq![
        SpannedToken {
            token: Token::Literal(LiteralKind::Integer { suffix_offset: None }),
            span: Span { offset: 0, len: s.len() as usize },
        },
    ]);
}

} // verus!
