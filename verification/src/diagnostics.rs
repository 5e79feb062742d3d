//! Locating a byte offset in the source for diagnostic rendering.
//!
//! Given an offset, [`locate_offset`] computes the 1-based line and column
//! and the bounds of the line holding it, by scanning for the surrounding
//! newline boundaries. A caret printed under column `column` of that line
//! points at the offset; the computation is independent of tab width. The
//! caller renders the line and the caret.

use vstd::prelude::*;

verus! {

/// A position in the source, for rendering: the 1-based line and column of
/// an offset, and the byte range of the line that holds it (newline
/// excluded).
#[derive(Clone, Copy, Debug, PartialEq, Eq, Structural)]
pub struct Location {
    pub line: usize,
    pub column: usize,
    pub line_start: usize,
    pub line_end: usize,
}

/// The number of newline bytes strictly before `i`.
pub open spec fn newlines_before(s: Seq<u8>, i: int) -> int
    decreases i,
    when 0 <= i <= s.len()
{
    if i <= 0 {
        0
    } else {
        newlines_before(s, i - 1) + if s[i - 1] == 10 {
            1int
        } else {
            0int
        }
    }
}

/// The start of the line holding offset `i`: the position just after the
/// last newline before `i`.
pub open spec fn line_start_of(s: Seq<u8>, i: int) -> int
    decreases i,
    when 0 <= i <= s.len()
{
    if i <= 0 {
        0
    } else if s[i - 1] == 10 {
        i
    } else {
        line_start_of(s, i - 1)
    }
}

/// The end of the line holding offset `i`: the position of the next newline
/// at or after `i`, or the end of the buffer.
pub open spec fn line_end_of(s: Seq<u8>, i: int) -> int
    decreases s.len() - i,
    when 0 <= i <= s.len()
{
    if i >= s.len() {
        i
    } else if s[i] == 10 {
        i
    } else {
        line_end_of(s, i + 1)
    }
}

/// Locates `offset` in the source: the line holding it is
/// `source[line_start..line_end]`, the line number is one more than the
/// count of newlines before the offset, and the column is the 1-based
/// position within the line.
pub fn locate_offset(source: &Vec<u8>, offset: usize) -> (r: Location)
    requires
        offset <= source@.len(),
        source@.len() < usize::MAX,
    ensures
        r.line == newlines_before(source@, offset as int) + 1,
        r.line_start == line_start_of(source@, offset as int),
        r.line_end == line_end_of(source@, offset as int),
        r.column == offset - r.line_start + 1,
        r.line_start <= offset <= r.line_end <= source@.len(),
        1 <= r.line <= offset + 1,
{
    proof {
        lemma_newlines_bound(source@, offset as int);
        lemma_line_bounds(source@, offset as int);
    }
    let total: usize = source.len();
    let mut line: usize = 1;
    let mut line_start: usize = 0;
    let mut k: usize = 0;
    #[verifier::loop_isolation(false)]
    while k < offset
        invariant
            0 <= k <= offset,
            line == newlines_before(source@, k as int) + 1,
            line_start == line_start_of(source@, k as int),
            line <= k + 1,
            line_start <= k,
        decreases offset - k,
    {
        if source[k] == 10 {
            line = line + 1;
            line_start = k + 1;
        }
        k = k + 1;
    }
    let mut line_end: usize = offset;
    #[verifier::loop_isolation(false)]
    while line_end < total && source[line_end] != 10
        invariant
            offset <= line_end <= total,
            line_end_of(source@, offset as int) == line_end_of(source@, line_end as int),
        decreases total - line_end,
    {
        line_end = line_end + 1;
    }
    Location { line, column: offset - line_start + 1, line_start, line_end }
}

/// The line number never passes the offset it counts to.
pub proof fn lemma_newlines_bound(s: Seq<u8>, i: int)
    requires
        0 <= i <= s.len(),
    ensures
        0 <= newlines_before(s, i) <= i,
    decreases i,
{
    if i > 0 {
        lemma_newlines_bound(s, i - 1);
    }
}

/// The line holding an offset surrounds it: its start is no later than the
/// offset, its end no earlier.
pub proof fn lemma_line_bounds(s: Seq<u8>, i: int)
    requires
        0 <= i <= s.len(),
    ensures
        0 <= line_start_of(s, i) <= i,
        i <= line_end_of(s, i) <= s.len(),
    decreases i + (s.len() - i),
{
    if i > 0 && s[i - 1] != 10 {
        lemma_line_bounds_start(s, i);
    }
    lemma_line_bounds_end(s, i);
}

proof fn lemma_line_bounds_start(s: Seq<u8>, i: int)
    requires
        0 <= i <= s.len(),
    ensures
        0 <= line_start_of(s, i) <= i,
    decreases i,
{
    if i > 0 && s[i - 1] != 10 {
        lemma_line_bounds_start(s, i - 1);
    }
}

proof fn lemma_line_bounds_end(s: Seq<u8>, i: int)
    requires
        0 <= i <= s.len(),
    ensures
        i <= line_end_of(s, i) <= s.len(),
    decreases s.len() - i,
{
    if i < s.len() && s[i] != 10 {
        lemma_line_bounds_end(s, i + 1);
    }
}

} // verus!
