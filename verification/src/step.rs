//! The stepping controller: a cursor over the step sequence, navigation
//! transitions, and full re-execution from scratch on every move. The
//! cursor starts before the first step; stepping past either end is a
//! silent no-op. On each successful move the accumulated source of the
//! steps up to the cursor is handed to a fresh evaluator session, and the
//! value stack and the highlighted source view are replaced whole. When
//! the evaluator rejects the accumulated source, the attempted move is
//! reverted: cursor, stack and view keep their previous values.

use vstd::prelude::*;

use crate::eval::eval_program;
use crate::render::{
    clone_bytes, plain_view, render_plain, render_view, rendered_view, span_in_lines,
    subvec, RenderedLine,
};
use crate::span::{
    compute_line_offset, line_offset, lines_decompose, lines_decompose_views,
    lemma_decompose_views, span_valid, views, SrcSpan,
};

verus! {

/// The navigation state: before the first step, or at step `i`.
#[derive(Clone, Copy, PartialEq, Eq, Structural, Debug)]
pub enum Cursor {
    Unstarted,
    AtStep(usize),
}

/// A navigation event.
#[derive(Clone, Copy, PartialEq, Eq, Structural, Debug)]
pub enum NavEvent {
    Forward,
    Backward,
    Quit,
}

/// What handling one event did.
#[derive(Debug)]
pub enum Outcome {
    /// The session is over; nothing was evaluated and nothing changed.
    Quit,
    /// The move was a boundary no-op; nothing was evaluated and nothing
    /// changed.
    Stayed,
    /// The cursor moved, the accumulated source ran, and stack and view
    /// were replaced.
    Moved,
    /// The evaluator rejected the accumulated source; the attempted move
    /// was reverted and nothing changed.
    EvalFailed(String),
}

/// Why a debugger could not be built.
#[derive(Clone, Copy, PartialEq, Eq, Structural, Debug)]
pub enum BuildError {
    /// The span at this step index does not fit the source text.
    InvalidSpan(usize),
}

/// One step: its source span and its literal source text, captured at
/// construction.
#[derive(Debug)]
pub struct Step {
    pub span: SrcSpan,
    pub text: Vec<u8>,
}

/// Where one forward move leads among `n` steps: from before the first
/// step to step 0 when any step exists, from step `i` to `i + 1`, and
/// nowhere from the last step.
pub open spec fn forward_target(c: Cursor, n: nat) -> Cursor {
    match c {
        Cursor::Unstarted => if n == 0 {
            Cursor::Unstarted
        } else {
            Cursor::AtStep(0)
        },
        Cursor::AtStep(i) => if i + 1 < n {
            Cursor::AtStep((i + 1) as usize)
        } else {
            Cursor::AtStep(i)
        },
    }
}

/// Where one backward move leads: from step `i` to `i - 1`, and nowhere
/// from step 0 or from before the first step.
pub open spec fn backward_target(c: Cursor) -> Cursor {
    match c {
        Cursor::Unstarted => Cursor::Unstarted,
        Cursor::AtStep(i) => if i > 0 {
            Cursor::AtStep((i - 1) as usize)
        } else {
            Cursor::AtStep(0)
        },
    }
}

/// Where one event leads; `Quit` moves nowhere.
pub open spec fn nav_target(c: Cursor, ev: NavEvent, n: nat) -> Cursor {
    match ev {
        NavEvent::Forward => forward_target(c, n),
        NavEvent::Backward => backward_target(c),
        NavEvent::Quit => c,
    }
}

/// One forward move among `n` steps, per `forward_target`.
pub fn cursor_forward(c: Cursor, n: usize) -> (r: Cursor)
    ensures
        r == forward_target(c, n as nat),
{
    match c {
        Cursor::Unstarted => if n == 0 {
            Cursor::Unstarted
        } else {
            Cursor::AtStep(0)
        },
        Cursor::AtStep(i) => if n > 0 && i < n - 1 {
            Cursor::AtStep(i + 1)
        } else {
            Cursor::AtStep(i)
        },
    }
}

/// One backward move, per `backward_target`.
pub fn cursor_backward(c: Cursor) -> (r: Cursor)
    ensures
        r == backward_target(c),
{
    match c {
        Cursor::Unstarted => Cursor::Unstarted,
        Cursor::AtStep(i) => if i > 0 {
            Cursor::AtStep(i - 1)
        } else {
            Cursor::AtStep(0)
        },
    }
}

/// `k` forward moves among `n` steps.
pub open spec fn forward_iter(c: Cursor, n: nat, k: nat) -> Cursor
    decreases k,
{
    if k == 0 {
        c
    } else {
        forward_target(forward_iter(c, n, (k - 1) as nat), n)
    }
}

/// `k` backward moves.
pub open spec fn backward_iter(c: Cursor, k: nat) -> Cursor
    decreases k,
{
    if k == 0 {
        c
    } else {
        backward_target(backward_iter(c, (k - 1) as nat))
    }
}

/// The accumulated program for steps `[0 ..= i]`: the steps' literal
/// texts joined, in step order, with one line terminator between them.
pub open spec fn accumulated(steps: Seq<Step>, i: int) -> Seq<u8>
    decreases i,
{
    if i <= 0 {
        steps[0].text@
    } else {
        accumulated(steps, i - 1) + seq![10u8] + steps[i].text@
    }
}

/// Appends `v`'s bytes to `r`.
fn append_bytes(r: &mut Vec<u8>, v: &Vec<u8>)
    ensures
        final(r)@ == old(r)@ + v@,
{
    let mut j: usize = 0;
    while j < v.len()
        invariant
            j <= v@.len(),
            r@ == old(r)@ + v@.subrange(0, j as int),
        decreases v@.len() - j,
    {
        r.push(v[j]);
        j = j + 1;
        proof {
            assert(r@ =~= old(r)@ + v@.subrange(0, j as int));
        }
    }
    proof {
        assert(v@.subrange(0, v@.len() as int) =~= v@);
    }
}

/// Builds the accumulated program for steps `[0 ..= i]`, per
/// `accumulated`.
pub fn accumulate(steps: &Vec<Step>, i: usize) -> (r: Vec<u8>)
    requires
        i < steps@.len(),
    ensures
        r@ == accumulated(steps@, i as int),
{
    let mut r = clone_bytes(&steps[0].text);
    let mut j: usize = 0;
    while j < i
        invariant
            j <= i,
            i < steps@.len(),
            r@ == accumulated(steps@, j as int),
        decreases i - j,
    {
        r.push(10);
        append_bytes(&mut r, &steps[j + 1].text);
        proof {
            assert(r@ =~= accumulated(steps@, j as int) + seq![10u8] + steps@[j + 1].text@);
        }
        j = j + 1;
    }
    r
}

/// The same step texts up to `i` give the same accumulated program:
/// re-execution is from scratch, so the program submitted at step `i` is
/// a function of the step texts `[0 ..= i]` alone, whatever navigation
/// history produced them.
pub proof fn lemma_accumulated_from_texts(a: Seq<Step>, b: Seq<Step>, i: int)
    requires
        0 <= i < a.len(),
        i < b.len(),
        forall|j: int| 0 <= j <= i ==> a[j].text@ == b[j].text@,
    ensures
        accumulated(a, i) == accumulated(b, i),
    decreases i,
{
    if i > 0 {
        lemma_accumulated_from_texts(a, b, i - 1);
    }
}

/// Repeated forward moves at the last step all stay at the last step.
pub proof fn lemma_forward_at_last_idempotent(i: usize, n: nat, k: nat)
    requires
        n == i + 1,
    ensures
        forward_iter(Cursor::AtStep(i), n, k) == Cursor::AtStep(i),
    decreases k,
{
    if k > 0 {
        lemma_forward_at_last_idempotent(i, n, (k - 1) as nat);
    }
}

/// Repeated backward moves at step 0, or before the first step, all stay
/// where they are.
pub proof fn lemma_backward_at_start_idempotent(c: Cursor, k: nat)
    requires
        c == Cursor::Unstarted || c == Cursor::AtStep(0usize),
    ensures
        backward_iter(c, k) == c,
    decreases k,
{
    if k > 0 {
        lemma_backward_at_start_idempotent(c, (k - 1) as nat);
    }
}

/// `k` forward moves from before the first step reach step `k - 1`.
proof fn lemma_forward_iter_reaches(n: nat, k: nat)
    requires
        1 <= k <= n,
        n <= usize::MAX,
    ensures
        forward_iter(Cursor::Unstarted, n, k) == Cursor::AtStep((k - 1) as usize),
    decreases k,
{
    if k == 1 {
        assert(forward_iter(Cursor::Unstarted, n, 0) == Cursor::Unstarted);
        assert(forward_iter(Cursor::Unstarted, n, 1) == forward_target(Cursor::Unstarted, n));
    } else {
        lemma_forward_iter_reaches(n, (k - 1) as nat);
        assert(forward_iter(Cursor::Unstarted, n, k) == forward_target(
            Cursor::AtStep((k - 2) as usize),
            n,
        ));
    }
}

/// `k` backward moves from step `j` reach step `j - k`, stopping at 0.
proof fn lemma_backward_iter_from(j: usize, k: nat)
    ensures
        backward_iter(Cursor::AtStep(j), k) == if k <= j {
            Cursor::AtStep((j - k) as usize)
        } else {
            Cursor::AtStep(0usize)
        },
    decreases k,
{
    if k > 0 {
        lemma_backward_iter_from(j, (k - 1) as nat);
    }
}

/// The debugger session state: the source text and its line split, the
/// extracted step sequence with each step's captured text, the cursor,
/// and the two derived displays — the value stack of the last successful
/// run and the rendered source view.
pub struct Debugger {
    pub src: Vec<u8>,
    pub lines: Vec<Vec<u8>>,
    pub steps: Vec<Step>,
    pub cursor: Cursor,
    pub stack: Vec<String>,
    pub rendered: Vec<RenderedLine>,
}

impl Debugger {
    /// The rendered view matches the cursor: the raw source before the
    /// first step, and the current step's span highlighted otherwise.
    pub open spec fn view_ok(self) -> bool {
        match self.cursor {
            Cursor::Unstarted => plain_view(self.rendered@, views(self.lines@)),
            Cursor::AtStep(i) => i < self.steps@.len() && rendered_view(
                self.rendered@,
                views(self.lines@),
                self.steps@[i as int].span,
            ),
        }
    }

    /// Well-formedness: the lines are the source's line split, every
    /// step's span fits the source with its text the span's exact byte
    /// range, the cursor is in range, and the view matches the cursor.
    pub open spec fn wf(self) -> bool {
        &&& lines_decompose(self.src@, views(self.lines@))
        &&& forall|i: int|
            0 <= i < self.steps@.len() ==> {
                &&& span_valid(
                    views(self.lines@),
                    self.src@.len() as int,
                    (#[trigger] self.steps@[i]).span,
                )
                &&& self.steps@[i].text@ == self.src@.subrange(
                    self.steps@[i].span.start.byte_pos as int,
                    self.steps@[i].span.end.byte_pos as int,
                )
            }
        &&& (self.cursor matches Cursor::AtStep(i) ==> i < self.steps@.len())
        &&& self.view_ok()
    }

    /// Builds a session over a source text and the extracted step spans:
    /// splits the source into lines, checks every span against it,
    /// captures each step's text, and starts before the first step with
    /// an empty stack and the raw source view. Rejects the first span, if
    /// any, that does not fit the source.
    pub fn new(src: Vec<u8>, spans: Vec<SrcSpan>) -> (r: Result<Debugger, BuildError>)
        ensures
            match r {
                Ok(d) => {
                    &&& d.wf()
                    &&& d.cursor == Cursor::Unstarted
                    &&& d.stack@.len() == 0
                    &&& d.src@ == src@
                    &&& d.steps@.len() == spans@.len()
                    &&& forall|i: int|
                        0 <= i < spans@.len() ==> (#[trigger] d.steps@[i]).span == spans@[i]
                },
                Err(e) => {
                    &&& e matches BuildError::InvalidSpan(i)
                    &&& i < spans@.len()
                    &&& exists|lv: Seq<Seq<u8>>|
                        {
                            &&& #[trigger] lines_decompose(src@, lv)
                            &&& !span_valid(lv, src@.len() as int, spans@[i as int])
                            &&& forall|j: int|
                                0 <= j < i ==> span_valid(lv, src@.len() as int, spans@[j])
                        }
                },
            },
    {
        let lines = crate::render::split_lines(&src);
        proof {
            lemma_decompose_views(src@, lines@);
        }
        let mut steps: Vec<Step> = Vec::new();
        let mut i: usize = 0;
        while i < spans.len()
            invariant
                i <= spans@.len(),
                steps@.len() == i,
                lines_decompose(src@, views(lines@)),
                lines_decompose_views(lines@, src@.len() as int),
                forall|t: int|
                    0 <= t < i ==> span_valid(
                        views(lines@),
                        src@.len() as int,
                        #[trigger] spans@[t],
                    ),
                forall|t: int|
                    0 <= t < i ==> {
                        &&& (#[trigger] steps@[t]).span == spans@[t]
                        &&& steps@[t].text@ == src@.subrange(
                            spans@[t].start.byte_pos as int,
                            spans@[t].end.byte_pos as int,
                        )
                    },
            decreases spans@.len() - i,
        {
            let sp = spans[i];
            if !check_span(&lines, src.len(), &sp) {
                proof {
                    assert(lines_decompose(src@, views(lines@)) && !span_valid(
                        views(lines@),
                        src@.len() as int,
                        spans@[i as int],
                    ) && forall|j: int|
                        0 <= j < i ==> span_valid(
                            views(lines@),
                            src@.len() as int,
                            #[trigger] spans@[j],
                        ));
                }
                return Err(BuildError::InvalidSpan(i));
            }
            let text = subvec(&src, sp.start.byte_pos, sp.end.byte_pos);
            steps.push(Step { span: sp, text });
            i = i + 1;
        }
        let rendered = render_plain(&lines);
        Ok(
            Debugger {
                src,
                lines,
                steps,
                cursor: Cursor::Unstarted,
                stack: Vec::new(),
                rendered,
            },
        )
    }

    /// Handles one navigation event. `Quit` and boundary no-ops change
    /// nothing and run nothing. A real move re-runs the accumulated
    /// source of the steps up to the target in a fresh evaluator session:
    /// on success the cursor moves and stack and view are replaced; on an
    /// evaluator error the move is reverted and nothing changes.
    pub fn handle_event(&mut self, ev: NavEvent) -> (r: Outcome)
        requires
            old(self).wf(),
        ensures
            final(self).wf(),
            final(self).src@ == old(self).src@,
            final(self).lines@ == old(self).lines@,
            final(self).steps@ == old(self).steps@,
            ({
                let tgt = nav_target(old(self).cursor, ev, old(self).steps@.len() as nat);
                &&& (r is Quit <==> ev == NavEvent::Quit)
                &&& (r is Stayed <==> ev != NavEvent::Quit && tgt == old(self).cursor)
                &&& (r is Quit || r is Stayed || r is EvalFailed ==> *final(self) == *old(
                    self,
                ))
                &&& (r is Moved ==> final(self).cursor == tgt && tgt != old(self).cursor)
                &&& (r is EvalFailed ==> tgt != old(self).cursor)
            }),
    {
        match ev {
            NavEvent::Quit => Outcome::Quit,
            _ => {
                let tgt = if matches!(ev, NavEvent::Forward) {
                    cursor_forward(self.cursor, self.steps.len())
                } else {
                    cursor_backward(self.cursor)
                };
                if tgt == self.cursor {
                    Outcome::Stayed
                } else {
                    match tgt {
                        Cursor::AtStep(i) => {
                            proof {
                                assert(i < self.steps@.len());
                            }
                            let program = accumulate(&self.steps, i);
                            match eval_program(&program) {
                                Ok(new_stack) => {
                                    let sp = self.steps[i].span;
                                    proof {
                                        assert(span_in_lines(views(self.lines@), sp));
                                    }
                                    let rendered = render_view(&self.lines, &sp);
                                    self.cursor = tgt;
                                    self.stack = new_stack;
                                    self.rendered = rendered;
                                    Outcome::Moved
                                },
                                Err(e) => Outcome::EvalFailed(e),
                            }
                        },
                        Cursor::Unstarted => {
                            proof {
                                assert(false);
                            }
                            Outcome::Stayed
                        },
                    }
                }
            },
        }
    }
}

/// Checks one span against the line split of a source of length
/// `src_len`, per `span_valid`.
fn check_span(lines: &Vec<Vec<u8>>, src_len: usize, span: &SrcSpan) -> (r: bool)
    requires
        lines_decompose_views(lines@, src_len as int),
    ensures
        r == span_valid(views(lines@), src_len as int, *span),
{
    if span.start.line < 1 || span.start.line > span.end.line || span.end.line > lines.len() {
        return false;
    }
    if span.start.byte_pos > span.end.byte_pos || span.end.byte_pos > src_len {
        return false;
    }
    if span.start.line == span.end.line {
        let k = span.start.line - 1;
        proof {
            assert(line_offset(views(lines@), k as int) + lines@[k as int]@.len() <= src_len);
        }
        let ls = compute_line_offset(lines, k, src_len);
        if ls > span.start.byte_pos {
            return false;
        }
        if span.end.byte_pos > ls + lines[k].len() {
            return false;
        }
        proof {
            assert(views(lines@)[k as int] == lines@[k as int]@);
        }
        true
    } else {
        true
    }
}

/// Stepping forward `k` times from before the first step and then
/// backward `k` times returns to step 0 whenever `k` is at least 1, and
/// stays before the first step when `k` is 0. It does not return to the
/// unstarted state for positive `k`, because a backward move at step 0 is
/// a no-op.
pub proof fn lemma_forward_backward_round_trip(n: nat, k: nat)
    requires
        k <= n,
        n <= usize::MAX,
    ensures
        backward_iter(forward_iter(Cursor::Unstarted, n, k), k) == if k == 0 {
            Cursor::Unstarted
        } else {
            Cursor::AtStep(0usize)
        },
{
    if k > 0 {
        lemma_forward_iter_reaches(n, k);
        lemma_backward_iter_from((k - 1) as usize, k);
    }
}

} // verus!
