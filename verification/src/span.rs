//! Source locations and spans, and the byte-offset model of a line-split
//! source text.
//!
//! A source text is a sequence of bytes, split into lines at `\n`. Line
//! numbers are 1-based, as the parser reports them; byte positions are
//! absolute offsets into the whole source. The offset of the start of a
//! line is the sum of the lengths of the lines before it, plus one byte
//! for each line terminator.

use vstd::prelude::*;

verus! {

/// A source location: 1-based line number and absolute byte offset.
#[derive(Clone, Copy, PartialEq, Eq, Structural, Debug)]
pub struct Loc {
    pub line: usize,
    pub byte_pos: usize,
}

/// A source range: from `start` (inclusive) to `end` (exclusive in bytes).
#[derive(Clone, Copy, PartialEq, Eq, Structural, Debug)]
pub struct SrcSpan {
    pub start: Loc,
    pub end: Loc,
}

/// Byte offset of the start of line `i` (0-based) in a line-split source:
/// each earlier line contributes its length plus one terminator byte.
pub open spec fn line_offset(lines: Seq<Seq<u8>>, i: int) -> int
    decreases i,
{
    if i <= 0 {
        0
    } else {
        line_offset(lines, i - 1) + lines[i - 1].len() + 1
    }
}

/// Line offsets are never negative.
pub proof fn lemma_line_offset_nonneg(lines: Seq<Seq<u8>>, i: int)
    ensures
        line_offset(lines, i) >= 0,
    decreases i,
{
    if i > 0 {
        lemma_line_offset_nonneg(lines, i - 1);
    }
}

/// Line offsets never decrease as the line index grows.
pub proof fn lemma_line_offset_monotonic(lines: Seq<Seq<u8>>, i: int, j: int)
    requires
        0 <= i <= j,
    ensures
        line_offset(lines, i) <= line_offset(lines, j),
    decreases j - i,
{
    if i < j {
        lemma_line_offset_monotonic(lines, i, j - 1);
    }
}

/// The decomposition of a source text into lines: every line is the exact
/// byte range of the source between its offset and its end, contains no
/// terminator byte, is followed by one where more source remains, and the
/// lines jointly cover the whole source.
pub open spec fn lines_decompose(src: Seq<u8>, lines: Seq<Seq<u8>>) -> bool {
    &&& forall|i: int|
        0 <= i < lines.len() ==> {
            &&& #[trigger] line_offset(lines, i) + lines[i].len() <= src.len()
            &&& lines[i] == src.subrange(line_offset(lines, i), line_offset(lines, i) + lines[i].len())
            &&& (line_offset(lines, i) + lines[i].len() < src.len() ==> src[line_offset(lines, i)
                + lines[i].len()] == 10u8)
        }
    &&& forall|i: int, j: int| 0 <= i < lines.len() && 0 <= j < lines[i].len() ==> #[trigger] lines[i][j] != 10u8
    &&& src.len() <= line_offset(lines, lines.len() as int) <= src.len() + 1
    &&& (src.len() == 0 ==> lines.len() == 0)
}

/// A span is valid for a source of length `src_len` split into `lines` when
/// its line numbers name existing lines, its byte range lies within the
/// source, and, for a span confined to one line, its byte range lies within
/// that line.
pub open spec fn span_valid(lines: Seq<Seq<u8>>, src_len: int, span: SrcSpan) -> bool {
    &&& 1 <= span.start.line <= span.end.line <= lines.len()
    &&& span.start.byte_pos <= span.end.byte_pos <= src_len
    &&& (span.start.line == span.end.line ==> {
        let ls = line_offset(lines, span.start.line - 1);
        ls <= span.start.byte_pos && span.end.byte_pos <= ls + lines[span.start.line - 1].len()
    })
}

/// Computes the byte offset of the start of line `k` (0-based), where
/// that offset is known to be at most `bound`.
pub fn compute_line_offset(lines: &Vec<Vec<u8>>, k: usize, bound: usize) -> (r: usize)
    requires
        k < lines@.len(),
        line_offset(views(lines@), k as int) <= bound,
    ensures
        r == line_offset(views(lines@), k as int),
{
    let ghost lv = views(lines@);
    let mut off: usize = 0;
    let mut j: usize = 0;
    while j < k
        invariant
            j <= k,
            k < lines@.len(),
            lv == views(lines@),
            line_offset(lv, k as int) <= bound,
            off == line_offset(lv, j as int),
        decreases k - j,
    {
        proof {
            assert(lv[j as int] == lines@[j as int]@);
            assert(line_offset(lv, (j + 1) as int) == off + lines@[j as int]@.len() + 1);
            lemma_line_offset_monotonic(lv, j + 1, k as int);
        }
        off = off + lines[j].len() + 1;
        j = j + 1;
    }
    off
}

/// The views of a sequence of byte vectors.
pub open spec fn views(lines: Seq<Vec<u8>>) -> Seq<Seq<u8>> {
    lines.map_values(|l: Vec<u8>| l@)
}

/// `lines_decompose` restated against a source known only by its length:
/// enough for offset computations that never read the source itself.
pub open spec fn lines_decompose_views(lines: Seq<Vec<u8>>, src_len: int) -> bool {
    &&& forall|i: int|
        0 <= i < lines.len() ==> #[trigger] line_offset(views(lines), i) + lines[i]@.len()
            <= src_len
    &&& src_len <= line_offset(views(lines), lines.len() as int) <= src_len + 1
}

/// A full decomposition also decomposes by length alone.
pub proof fn lemma_decompose_views(src: Seq<u8>, lines: Seq<Vec<u8>>)
    requires
        lines_decompose(src, views(lines)),
    ensures
        lines_decompose_views(lines, src.len() as int),
{
    assert forall|i: int| 0 <= i < lines.len() implies #[trigger] line_offset(views(lines), i)
        + lines[i]@.len() <= src.len() by {
        assert(views(lines)[i] == lines[i]@);
    }
    assert(views(lines).len() == lines.len());
}

} // verus!
