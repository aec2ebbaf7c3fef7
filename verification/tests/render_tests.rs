use uiua_debugger::render::{render_plain, render_view, split_lines, RenderedLine};
use uiua_debugger::span::{Loc, SrcSpan};

fn span(sl: usize, sb: usize, el: usize, eb: usize) -> SrcSpan {
    SrcSpan {
        start: Loc { line: sl, byte_pos: sb },
        end: Loc { line: el, byte_pos: eb },
    }
}

#[test]
fn split_lines_basic() {
    let lines = split_lines(&b"abc\nde\nf".to_vec());
    assert_eq!(lines, vec![b"abc".to_vec(), b"de".to_vec(), b"f".to_vec()]);
}

#[test]
fn split_lines_trailing_terminator_adds_no_line() {
    let lines = split_lines(&b"abc\nde\n".to_vec());
    assert_eq!(lines, vec![b"abc".to_vec(), b"de".to_vec()]);
}

#[test]
fn split_lines_empty_source() {
    let lines = split_lines(&b"".to_vec());
    assert_eq!(lines.len(), 0);
}

#[test]
fn split_lines_keeps_empty_middle_line() {
    let lines = split_lines(&b"a\n\nb".to_vec());
    assert_eq!(lines, vec![b"a".to_vec(), b"".to_vec(), b"b".to_vec()]);
}

#[test]
fn single_line_span_splits_into_three_parts() {
    let lines = split_lines(&b"abc def\nghi".to_vec());
    // Highlight "def": line 1, bytes 4..7 of the source.
    let out = render_view(&lines, &span(1, 4, 1, 7));
    assert_eq!(out.len(), 2);
    match &out[0] {
        RenderedLine::Split { before, marked, after } => {
            assert_eq!(before, &b"abc ".to_vec());
            assert_eq!(marked, &b"def".to_vec());
            assert_eq!(after, &b"".to_vec());
        }
        other => panic!("expected a split line, got {:?}", other),
    }
    match &out[1] {
        RenderedLine::Plain(p) => assert_eq!(p, &b"ghi".to_vec()),
        other => panic!("expected a plain line, got {:?}", other),
    }
}

#[test]
fn single_line_parts_reconstruct_the_line() {
    let src = b"one two three\nfour".to_vec();
    let lines = split_lines(&src);
    // Highlight "two": line 1, bytes 4..7.
    let out = render_view(&lines, &span(1, 4, 1, 7));
    match &out[0] {
        RenderedLine::Split { before, marked, after } => {
            let mut joined = before.clone();
            joined.extend_from_slice(marked);
            joined.extend_from_slice(after);
            assert_eq!(joined, lines[0]);
        }
        other => panic!("expected a split line, got {:?}", other),
    }
}

#[test]
fn single_line_span_on_a_later_line_uses_line_relative_offsets() {
    let src = b"ab\ncdef\ngh".to_vec();
    let lines = split_lines(&src);
    // Highlight "de": line 2, source bytes 4..6, line-relative 1..3.
    let out = render_view(&lines, &span(2, 4, 2, 6));
    match &out[1] {
        RenderedLine::Split { before, marked, after } => {
            assert_eq!(before, &b"c".to_vec());
            assert_eq!(marked, &b"de".to_vec());
            assert_eq!(after, &b"f".to_vec());
        }
        other => panic!("expected a split line, got {:?}", other),
    }
    assert!(matches!(&out[0], RenderedLine::Plain(p) if p == &b"ab".to_vec()));
    assert!(matches!(&out[2], RenderedLine::Plain(p) if p == &b"gh".to_vec()));
}

#[test]
fn multi_line_span_highlights_exactly_its_line_range() {
    let src = b"l1\nl2\nl3\nl4".to_vec();
    let lines = split_lines(&src);
    // Lines 2 through 3, inclusive.
    let out = render_view(&lines, &span(2, 3, 3, 8));
    assert_eq!(out.len(), 4);
    assert!(matches!(&out[0], RenderedLine::Plain(p) if p == &b"l1".to_vec()));
    assert!(matches!(&out[1], RenderedLine::Highlighted(p) if p == &b"l2".to_vec()));
    assert!(matches!(&out[2], RenderedLine::Highlighted(p) if p == &b"l3".to_vec()));
    assert!(matches!(&out[3], RenderedLine::Plain(p) if p == &b"l4".to_vec()));
}

#[test]
fn render_plain_leaves_every_line_unhighlighted() {
    let lines = split_lines(&b"a\nb\nc".to_vec());
    let out = render_plain(&lines);
    assert_eq!(out.len(), 3);
    for (i, l) in out.iter().enumerate() {
        match l {
            RenderedLine::Plain(p) => assert_eq!(p, &lines[i]),
            other => panic!("expected a plain line, got {:?}", other),
        }
    }
}

#[test]
fn multibyte_text_highlights_on_byte_offsets() {
    // "×" is two bytes; highlight it alone on line 1 (bytes 0..2).
    let src = "× 1 2".as_bytes().to_vec();
    let lines = split_lines(&src);
    let out = render_view(&lines, &span(1, 0, 1, 2));
    match &out[0] {
        RenderedLine::Split { before, marked, after } => {
            assert_eq!(before.len(), 0);
            assert_eq!(marked, &"×".as_bytes().to_vec());
            assert_eq!(after, &b" 1 2".to_vec());
        }
        other => panic!("expected a split line, got {:?}", other),
    }
}
