//! The span extractor: flattens a parsed program's top-level items into
//! the ordered sequence of step spans. Expression-line items contribute
//! their non-whitespace tokens, line by line in source order but with the
//! tokens of each line reversed, because the language evaluates each line
//! right to left; a binding contributes a single step covering its whole
//! span; every other item contributes nothing.

use vstd::prelude::*;

use crate::span::SrcSpan;

verus! {

/// One lexed token of an expression line: its span and whether it is
/// whitespace only.
#[derive(Clone, Copy, PartialEq, Eq, Structural, Debug)]
pub struct Token {
    pub span: SrcSpan,
    pub is_space: bool,
}

/// A top-level item of a parsed program, reduced to what stepping reads:
/// an expression item as its lines of tokens, a binding as its whole span,
/// and anything else as `Other`.
#[derive(Debug)]
pub enum AstItem {
    Words(Vec<Vec<Token>>),
    Binding(SrcSpan),
    Other,
}

/// The views of a sequence of token vectors.
pub open spec fn token_line_views(lines: Seq<Vec<Token>>) -> Seq<Seq<Token>> {
    lines.map_values(|l: Vec<Token>| l@)
}

/// The step spans of one expression line: its non-whitespace tokens'
/// spans, in reverse source order (rightmost token first).
pub open spec fn line_steps(line: Seq<Token>) -> Seq<SrcSpan>
    decreases line.len(),
{
    if line.len() == 0 {
        Seq::empty()
    } else {
        line_steps(line.subrange(1, line.len() as int)) + if line[0].is_space {
            Seq::<SrcSpan>::empty()
        } else {
            seq![line[0].span]
        }
    }
}

/// The step spans of an expression item: each line's reversed tokens, with
/// the lines themselves in source order.
pub open spec fn words_steps(lines: Seq<Seq<Token>>) -> Seq<SrcSpan>
    decreases lines.len(),
{
    if lines.len() == 0 {
        Seq::empty()
    } else {
        words_steps(lines.subrange(0, lines.len() - 1)) + line_steps(lines[lines.len() - 1])
    }
}

/// The step spans of one item.
pub open spec fn item_steps(item: AstItem) -> Seq<SrcSpan> {
    match item {
        AstItem::Words(lines) => words_steps(token_line_views(lines@)),
        AstItem::Binding(s) => seq![s],
        AstItem::Other => Seq::empty(),
    }
}

/// The step spans of a whole program: the items' steps concatenated in
/// item order.
pub open spec fn extract_spec(items: Seq<AstItem>) -> Seq<SrcSpan>
    decreases items.len(),
{
    if items.len() == 0 {
        Seq::empty()
    } else {
        extract_spec(items.subrange(0, items.len() - 1)) + item_steps(items[items.len() - 1])
    }
}

/// The count of non-whitespace tokens in one line.
pub open spec fn line_code_count(line: Seq<Token>) -> nat
    decreases line.len(),
{
    if line.len() == 0 {
        0
    } else {
        line_code_count(line.subrange(1, line.len() as int)) + if line[0].is_space {
            0nat
        } else {
            1nat
        }
    }
}

/// The count of non-whitespace tokens over all expression lines of a
/// program.
pub open spec fn code_token_count(items: Seq<AstItem>) -> nat
    decreases items.len(),
{
    if items.len() == 0 {
        0
    } else {
        code_token_count(items.subrange(0, items.len() - 1)) + match items[items.len() - 1] {
            AstItem::Words(lines) => words_code_count(token_line_views(lines@)),
            _ => 0nat,
        }
    }
}

/// The count of non-whitespace tokens over a sequence of lines.
pub open spec fn words_code_count(lines: Seq<Seq<Token>>) -> nat
    decreases lines.len(),
{
    if lines.len() == 0 {
        0
    } else {
        words_code_count(lines.subrange(0, lines.len() - 1)) + line_code_count(
            lines[lines.len() - 1],
        )
    }
}

/// The count of binding items of a program.
pub open spec fn binding_count(items: Seq<AstItem>) -> nat
    decreases items.len(),
{
    if items.len() == 0 {
        0
    } else {
        binding_count(items.subrange(0, items.len() - 1)) + match items[items.len() - 1] {
            AstItem::Binding(_) => 1nat,
            _ => 0nat,
        }
    }
}

/// A line yields as many steps as it has non-whitespace tokens.
proof fn lemma_line_steps_len(line: Seq<Token>)
    ensures
        line_steps(line).len() == line_code_count(line),
    decreases line.len(),
{
    if line.len() > 0 {
        lemma_line_steps_len(line.subrange(1, line.len() as int));
    }
}

/// An expression item yields as many steps as its lines hold
/// non-whitespace tokens.
proof fn lemma_words_steps_len(lines: Seq<Seq<Token>>)
    ensures
        words_steps(lines).len() == words_code_count(lines),
    decreases lines.len(),
{
    if lines.len() > 0 {
        lemma_words_steps_len(lines.subrange(0, lines.len() - 1));
        lemma_line_steps_len(lines[lines.len() - 1]);
    }
}

/// Extraction yields exactly one step per non-whitespace token of an
/// expression line plus one step per binding.
pub proof fn lemma_extract_count(items: Seq<AstItem>)
    ensures
        extract_spec(items).len() == code_token_count(items) + binding_count(items),
    decreases items.len(),
{
    if items.len() > 0 {
        lemma_extract_count(items.subrange(0, items.len() - 1));
        match items[items.len() - 1] {
            AstItem::Words(lines) => {
                lemma_words_steps_len(token_line_views(lines@));
            },
            _ => {},
        }
    }
}

/// Flattens a program's items into the ordered step spans, per
/// `extract_spec`.
pub fn extract(items: &Vec<AstItem>) -> (r: Vec<SrcSpan>)
    ensures
        r@ == extract_spec(items@),
{
    let mut r: Vec<SrcSpan> = Vec::new();
    let mut idx: usize = 0;
    while idx < items.len()
        invariant
            idx <= items@.len(),
            r@ == extract_spec(items@.subrange(0, idx as int)),
        decreases items@.len() - idx,
    {
        let ghost done = items@.subrange(0, idx as int);
        match &items[idx] {
            AstItem::Words(lines) => {
                let ghost lv = token_line_views(lines@);
                let mut li: usize = 0;
                while li < lines.len()
                    invariant
                        li <= lines@.len(),
                        lv == token_line_views(lines@),
                        lv.len() == lines@.len(),
                        items@[idx as int] matches AstItem::Words(ls) && ls@ == lines@,
                        idx < items@.len(),
                        done == items@.subrange(0, idx as int),
                        r@ == extract_spec(done) + words_steps(lv.subrange(0, li as int)),
                    decreases lines@.len() - li,
                {
                    proof {
                        assert(lv[li as int] == lines@[li as int]@);
                    }
                    let line = &lines[li];
                    let ghost lsv = line@;
                    let mut j: usize = line.len();
                    proof {
                        assert(lsv.subrange(j as int, lsv.len() as int) =~= Seq::<
                            Token,
                        >::empty());
                        assert(line_steps(lsv.subrange(j as int, lsv.len() as int)) =~= Seq::<
                            SrcSpan,
                        >::empty());
                    }
                    while j > 0
                        invariant
                            j <= lsv.len(),
                            lsv == line@,
                            lv == token_line_views(lines@),
                            li < lines@.len(),
                            lv[li as int] == lsv,
                            done == items@.subrange(0, idx as int),
                            r@ == extract_spec(done) + words_steps(
                                lv.subrange(0, li as int),
                            ) + line_steps(lsv.subrange(j as int, lsv.len() as int)),
                        decreases j,
                    {
                        j = j - 1;
                        let ghost pre = lsv.subrange(j + 1, lsv.len() as int);
                        if !line[j].is_space {
                            r.push(line[j].span);
                        }
                        proof {
                            let cur = lsv.subrange(j as int, lsv.len() as int);
                            assert(cur[0] == lsv[j as int]);
                            assert(cur.subrange(1, cur.len() as int) =~= pre);
                            assert(line_steps(cur) == line_steps(pre) + if lsv[j as int].is_space {
                                Seq::<SrcSpan>::empty()
                            } else {
                                seq![lsv[j as int].span]
                            });
                            if lsv[j as int].is_space {
                                assert(line_steps(cur) =~= line_steps(pre));
                            }
                        }
                    }
                    li = li + 1;
                    proof {
                        let upto = lv.subrange(0, li as int);
                        assert(upto.subrange(0, upto.len() - 1) =~= lv.subrange(0, li - 1));
                        assert(upto[upto.len() - 1] == lsv);
                        assert(lsv.subrange(0, lsv.len() as int) =~= lsv);
                        assert(words_steps(upto) == words_steps(lv.subrange(0, li - 1))
                            + line_steps(lsv));
                    }
                }
                proof {
                    assert(lv.subrange(0, lv.len() as int) =~= lv);
                }
            },
            AstItem::Binding(s) => {
                r.push(*s);
            },
            AstItem::Other => {},
        }
        idx = idx + 1;
        proof {
            let upto = items@.subrange(0, idx as int);
            assert(upto.subrange(0, upto.len() - 1) =~= done);
            assert(upto[upto.len() - 1] == items@[idx - 1]);
            assert(extract_spec(upto) == extract_spec(done) + item_steps(items@[idx - 1]));
        }
    }
    proof {
        assert(items@.subrange(0, items@.len() as int) =~= items@);
    }
    r
}

} // verus!
