//! The highlight renderer: given a line-split source text and one span, it
//! produces one rendered line per source line. A span confined to a single
//! line splits that line into the bytes before the highlight, the
//! highlighted byte range, and the bytes after it; a span crossing lines
//! highlights every line in its inclusive line range whole. All other
//! lines render plain.

use vstd::prelude::*;

use crate::span::{compute_line_offset, line_offset, views, SrcSpan};

verus! {

/// One rendered source line: plain, fully highlighted, or split around a
/// highlighted byte range.
#[derive(Debug)]
pub enum RenderedLine {
    Plain(Vec<u8>),
    Highlighted(Vec<u8>),
    Split { before: Vec<u8>, marked: Vec<u8>, after: Vec<u8> },
}

/// The line renders plain with exactly `content`.
pub open spec fn is_plain(l: RenderedLine, content: Seq<u8>) -> bool {
    l matches RenderedLine::Plain(p) && p@ == content
}

/// The line renders fully highlighted with exactly `content`.
pub open spec fn is_highlighted(l: RenderedLine, content: Seq<u8>) -> bool {
    l matches RenderedLine::Highlighted(p) && p@ == content
}

/// The line renders split into exactly the three given byte sequences.
pub open spec fn is_split(l: RenderedLine, b: Seq<u8>, m: Seq<u8>, a: Seq<u8>) -> bool {
    l matches RenderedLine::Split { before, marked, after } && before@ == b && marked@ == m
        && after@ == a
}

/// The span names existing lines, and a single-line span's byte range lies
/// within its line.
pub open spec fn span_in_lines(lines: Seq<Seq<u8>>, span: SrcSpan) -> bool {
    &&& 1 <= span.start.line <= span.end.line <= lines.len()
    &&& (span.start.line == span.end.line ==> {
        let ls = line_offset(lines, span.start.line - 1);
        &&& ls <= span.start.byte_pos <= span.end.byte_pos
        &&& span.end.byte_pos <= ls + lines[span.start.line - 1].len()
    })
}

/// What rendering `span` over `lines` yields: one output line per source
/// line; for a single-line span, every line but the span's renders plain
/// and the span's line is split at the span's line-relative byte offsets;
/// for a multi-line span, exactly the lines of the span's inclusive line
/// range render fully highlighted and every other line renders plain.
pub open spec fn rendered_view(out: Seq<RenderedLine>, lines: Seq<Seq<u8>>, span: SrcSpan) -> bool {
    &&& out.len() == lines.len()
    &&& if span.start.line == span.end.line {
        let k = span.start.line - 1;
        let ls = line_offset(lines, k);
        let s_rel = span.start.byte_pos - ls;
        let e_rel = span.end.byte_pos - ls;
        &&& (forall|i: int| 0 <= i < lines.len() && i != k ==> is_plain(#[trigger] out[i], lines[i]))
        &&& is_split(
            out[k],
            lines[k].subrange(0, s_rel),
            lines[k].subrange(s_rel, e_rel),
            lines[k].subrange(e_rel, lines[k].len() as int),
        )
    } else {
        forall|i: int|
            0 <= i < lines.len() ==> if span.start.line - 1 <= i <= span.end.line - 1 {
                is_highlighted(#[trigger] out[i], lines[i])
            } else {
                is_plain(out[i], lines[i])
            }
    }
}

/// Copies the byte range `[a, b)` of `v`.
pub(crate) fn subvec(v: &Vec<u8>, a: usize, b: usize) -> (r: Vec<u8>)
    requires
        a <= b <= v@.len(),
    ensures
        r@ == v@.subrange(a as int, b as int),
{
    let mut r: Vec<u8> = Vec::new();
    let mut i: usize = a;
    while i < b
        invariant
            a <= i <= b <= v@.len(),
            r@ == v@.subrange(a as int, i as int),
        decreases b - i,
    {
        r.push(v[i]);
        i = i + 1;
        proof {
            assert(r@ =~= v@.subrange(a as int, i as int));
        }
    }
    r
}

/// Copies a byte vector.
pub(crate) fn clone_bytes(v: &Vec<u8>) -> (r: Vec<u8>)
    ensures
        r@ == v@,
{
    let r = subvec(v, 0, v.len());
    proof {
        assert(v@.subrange(0, v@.len() as int) =~= v@);
    }
    r
}

/// Renders the source view for one span, per `rendered_view`.
pub fn render_view(lines: &Vec<Vec<u8>>, span: &SrcSpan) -> (out: Vec<RenderedLine>)
    requires
        span_in_lines(views(lines@), *span),
    ensures
        rendered_view(out@, views(lines@), *span),
{
    let mut out: Vec<RenderedLine> = Vec::new();
    let mut i: usize = 0;
    let ghost lv = views(lines@);
    proof {
        assert(lv.len() == lines@.len());
    }
    if span.start.line == span.end.line {
        let k = span.start.line - 1;
        proof {
            assert(lv[k as int] == lines@[k as int]@);
        }
        let off = compute_line_offset(lines, k, span.start.byte_pos);
        let s_rel = span.start.byte_pos - off;
        let e_rel = span.end.byte_pos - off;
        while i < lines.len()
            invariant
                i <= lines@.len(),
                out@.len() == i,
                lv == views(lines@),
                lv.len() == lines@.len(),
                k == span.start.line - 1,
                k < lines@.len(),
                span.start.line == span.end.line,
                span_in_lines(lv, *span),
                off == line_offset(lv, k as int),
                s_rel == span.start.byte_pos - off,
                e_rel == span.end.byte_pos - off,
                forall|t: int| 0 <= t < i && t != k ==> is_plain(#[trigger] out@[t], lv[t]),
                i > k ==> is_split(
                    out@[k as int],
                    lv[k as int].subrange(0, s_rel as int),
                    lv[k as int].subrange(s_rel as int, e_rel as int),
                    lv[k as int].subrange(e_rel as int, lv[k as int].len() as int),
                ),
            decreases lines@.len() - i,
        {
            proof {
                assert(lv[i as int] == lines@[i as int]@);
            }
            if i == k {
                let before = subvec(&lines[i], 0, s_rel);
                let marked = subvec(&lines[i], s_rel, e_rel);
                let after = subvec(&lines[i], e_rel, lines[i].len());
                out.push(RenderedLine::Split { before, marked, after });
            } else {
                out.push(RenderedLine::Plain(clone_bytes(&lines[i])));
            }
            i = i + 1;
        }
    } else {
        while i < lines.len()
            invariant
                i <= lines@.len(),
                out@.len() == i,
                lv == views(lines@),
                lv.len() == lines@.len(),
                span.start.line != span.end.line,
                span_in_lines(lv, *span),
                forall|t: int|
                    0 <= t < i ==> if span.start.line - 1 <= t <= span.end.line - 1 {
                        is_highlighted(#[trigger] out@[t], lv[t])
                    } else {
                        is_plain(out@[t], lv[t])
                    },
            decreases lines@.len() - i,
        {
            proof {
                assert(lv[i as int] == lines@[i as int]@);
            }
            if span.start.line - 1 <= i && i <= span.end.line - 1 {
                out.push(RenderedLine::Highlighted(clone_bytes(&lines[i])));
            } else {
                out.push(RenderedLine::Plain(clone_bytes(&lines[i])));
            }
            i = i + 1;
        }
    }
    out
}

/// Every line renders plain: the raw, unhighlighted source view.
pub open spec fn plain_view(out: Seq<RenderedLine>, lines: Seq<Seq<u8>>) -> bool {
    &&& out.len() == lines.len()
    &&& forall|i: int| 0 <= i < lines.len() ==> is_plain(#[trigger] out[i], lines[i])
}

/// Renders the whole source unhighlighted, per `plain_view`.
pub fn render_plain(lines: &Vec<Vec<u8>>) -> (out: Vec<RenderedLine>)
    ensures
        plain_view(out@, views(lines@)),
{
    let mut out: Vec<RenderedLine> = Vec::new();
    let mut i: usize = 0;
    while i < lines.len()
        invariant
            i <= lines@.len(),
            out@.len() == i,
            forall|t: int| 0 <= t < i ==> is_plain(#[trigger] out@[t], views(lines@)[t]),
        decreases lines@.len() - i,
    {
        proof {
            assert(views(lines@)[i as int] == lines@[i as int]@);
        }
        out.push(RenderedLine::Plain(clone_bytes(&lines[i])));
        i = i + 1;
    }
    out
}

/// Splits a source text into lines at the terminator byte. A terminator
/// ends the line before it; bytes after the last terminator form a final
/// line, and a source ending in a terminator yields no extra empty line.
pub fn split_lines(src: &Vec<u8>) -> (out: Vec<Vec<u8>>)
    ensures
        crate::span::lines_decompose(src@, views(out@)),
{
    let mut out: Vec<Vec<u8>> = Vec::new();
    let mut cur: Vec<u8> = Vec::new();
    let mut i: usize = 0;
    while i < src.len()
        invariant
            i <= src@.len(),
            line_offset(views(out@), out@.len() as int) + cur@.len() == i,
            cur@ == src@.subrange(i - cur@.len(), i as int),
            forall|a: int| 0 <= a < cur@.len() ==> #[trigger] cur@[a] != 10u8,
            forall|t: int|
                0 <= t < out@.len() ==> {
                    &&& #[trigger] line_offset(views(out@), t) + views(out@)[t].len() < src@.len()
                    &&& views(out@)[t] == src@.subrange(
                        line_offset(views(out@), t),
                        line_offset(views(out@), t) + views(out@)[t].len(),
                    )
                    &&& src@[line_offset(views(out@), t) + views(out@)[t].len()] == 10u8
                },
            forall|t: int, a: int|
                0 <= t < out@.len() && 0 <= a < views(out@)[t].len() ==> #[trigger] views(
                    out@,
                )[t][a] != 10u8,
        decreases src@.len() - i,
    {
        let b = src[i];
        proof {
            crate::span::lemma_line_offset_nonneg(views(out@), out@.len() as int);
        }
        if b == 10 {
            proof {
                lemma_views_push(out@, cur@, cur);
            }
            let ghost old_out = out@;
            let ghost old_cur = cur@;
            out.push(cur);
            cur = Vec::new();
            proof {
                lemma_line_offset_prefix(views(old_out), views(out@), old_out.len() as int);
                assert(views(out@)[old_out.len() as int] == old_cur);
                assert(line_offset(views(out@), out@.len() as int) == line_offset(
                    views(out@),
                    old_out.len() as int,
                ) + old_cur.len() + 1);
                assert forall|t: int| 0 <= t < out@.len() implies {
                    &&& #[trigger] line_offset(views(out@), t) + views(out@)[t].len()
                        < src@.len()
                    &&& views(out@)[t] == src@.subrange(
                        line_offset(views(out@), t),
                        line_offset(views(out@), t) + views(out@)[t].len(),
                    )
                    &&& src@[line_offset(views(out@), t) + views(out@)[t].len()] == 10u8
                } by {
                    lemma_line_offset_prefix(views(old_out), views(out@), t);
                    if t < old_out.len() {
                        assert(views(out@)[t] == views(old_out)[t]);
                    } else {
                        assert(old_cur =~= src@.subrange(i - old_cur.len(), i as int));
                    }
                }
                assert forall|t: int, a: int|
                    0 <= t < out@.len() && 0 <= a < views(out@)[t].len() implies #[trigger] views(
                    out@,
                )[t][a] != 10u8 by {
                    if t < old_out.len() {
                        assert(views(out@)[t] == views(old_out)[t]);
                    } else {
                        assert(views(out@)[t] == old_cur);
                    }
                }
                assert(cur@ =~= src@.subrange(i + 1 - cur@.len(), i + 1));
            }
        } else {
            cur.push(b);
            proof {
                assert(cur@ =~= src@.subrange(i + 1 - cur@.len(), i + 1));
            }
        }
        i = i + 1;
    }
    if cur.len() > 0 {
        proof {
            lemma_views_push(out@, cur@, cur);
        }
        let ghost old_out = out@;
        let ghost old_cur = cur@;
        out.push(cur);
        proof {
            lemma_line_offset_prefix(views(old_out), views(out@), old_out.len() as int);
            assert(views(out@)[old_out.len() as int] == old_cur);
            assert forall|t: int| 0 <= t < out@.len() implies {
                &&& #[trigger] line_offset(views(out@), t) + views(out@)[t].len() <= src@.len()
                &&& views(out@)[t] == src@.subrange(
                    line_offset(views(out@), t),
                    line_offset(views(out@), t) + views(out@)[t].len(),
                )
                &&& (line_offset(views(out@), t) + views(out@)[t].len() < src@.len()
                    ==> src@[line_offset(views(out@), t) + views(out@)[t].len()] == 10u8)
            } by {
                lemma_line_offset_prefix(views(old_out), views(out@), t);
                if t < old_out.len() {
                    assert(views(out@)[t] == views(old_out)[t]);
                } else {
                    assert(old_cur =~= src@.subrange(
                        src@.len() - old_cur.len(),
                        src@.len() as int,
                    ));
                }
            }
            assert forall|t: int, a: int|
                0 <= t < out@.len() && 0 <= a < views(out@)[t].len() implies #[trigger] views(
                out@,
            )[t][a] != 10u8 by {
                if t < old_out.len() {
                    assert(views(out@)[t] == views(old_out)[t]);
                } else {
                    assert(views(out@)[t] == old_cur);
                }
            }
            assert(line_offset(views(out@), out@.len() as int) == line_offset(
                views(out@),
                old_out.len() as int,
            ) + old_cur.len() + 1);
            assert(line_offset(views(out@), out@.len() as int) == src@.len() + 1);
            crate::span::lemma_line_offset_nonneg(views(old_out), old_out.len() as int);
            assert(src@.len() > 0);
            assert(views(out@).len() == out@.len());
        }
    } else {
        proof {
            assert(line_offset(views(out@), out@.len() as int) == src@.len());
            assert(src@.len() == 0 ==> out@.len() == 0) by {
                if src@.len() == 0 && out@.len() > 0 {
                    crate::span::lemma_line_offset_nonneg(views(out@), out@.len() - 1);
                    assert(line_offset(views(out@), out@.len() as int) >= 1);
                    assert(false);
                }
            }
            assert(views(out@).len() == out@.len());
        }
    }
    out
}

/// The views of a pushed sequence are the pushed views.
proof fn lemma_views_push(s: Seq<Vec<u8>>, cv: Seq<u8>, c: Vec<u8>)
    requires
        c@ == cv,
    ensures
        views(s.push(c)) =~= views(s).push(cv),
{
}

/// Line offsets agree on a common prefix of two line sequences.
proof fn lemma_line_offset_prefix(a: Seq<Seq<u8>>, b: Seq<Seq<u8>>, i: int)
    requires
        i <= a.len(),
        i <= b.len(),
        forall|j: int| 0 <= j < i ==> a[j] == b[j],
    ensures
        line_offset(a, i) == line_offset(b, i),
    decreases i,
{
    if i > 0 {
        lemma_line_offset_prefix(a, b, i - 1);
    }
}

/// For a span confined to one line, the three parts of the split line,
/// concatenated, reconstruct that source line byte for byte.
pub proof fn lemma_single_line_parts_reconstruct(
    out: Seq<RenderedLine>,
    lines: Seq<Seq<u8>>,
    span: SrcSpan,
)
    requires
        span_in_lines(lines, span),
        rendered_view(out, lines, span),
        span.start.line == span.end.line,
    ensures
        out[span.start.line - 1] matches RenderedLine::Split { before, marked, after }
            && before@ + marked@ + after@ == lines[span.start.line - 1],
{
    let k = span.start.line - 1;
    let ls = line_offset(lines, k);
    let s_rel = span.start.byte_pos - ls;
    let e_rel = span.end.byte_pos - ls;
    assert(lines[k].subrange(0, s_rel) + lines[k].subrange(s_rel, e_rel) + lines[k].subrange(
        e_rel,
        lines[k].len() as int,
    ) =~= lines[k]);
}

/// For a span crossing lines, every line in the span's inclusive line
/// range is fully highlighted and every line outside it is plain.
pub proof fn lemma_multi_line_coverage(out: Seq<RenderedLine>, lines: Seq<Seq<u8>>, span: SrcSpan)
    requires
        rendered_view(out, lines, span),
        span.start.line != span.end.line,
    ensures
        forall|i: int|
            0 <= i < lines.len() && span.start.line - 1 <= i <= span.end.line - 1
                ==> is_highlighted(#[trigger] out[i], lines[i]),
        forall|i: int|
            0 <= i < lines.len() && !(span.start.line - 1 <= i <= span.end.line - 1)
                ==> is_plain(#[trigger] out[i], lines[i]),
{
}

} // verus!
