use uiua_debugger::extract::{extract, AstItem, Token};
use uiua_debugger::span::{Loc, SrcSpan};
use uiua_debugger::step::{
    accumulate, cursor_backward, cursor_forward, BuildError, Cursor, Debugger, NavEvent,
    Outcome, Step,
};

fn span(sl: usize, sb: usize, el: usize, eb: usize) -> SrcSpan {
    SrcSpan {
        start: Loc { line: sl, byte_pos: sb },
        end: Loc { line: el, byte_pos: eb },
    }
}

fn conv_span(s: &uiua::CodeSpan) -> SrcSpan {
    SrcSpan {
        start: Loc {
            line: s.start.line as usize,
            byte_pos: s.start.byte_pos as usize,
        },
        end: Loc {
            line: s.end.line as usize,
            byte_pos: s.end.byte_pos as usize,
        },
    }
}

fn convert_items(items: &[uiua::ast::Item]) -> Vec<AstItem> {
    items
        .iter()
        .map(|item| match item {
            uiua::ast::Item::Words(words) => AstItem::Words(vec![words
                .iter()
                .map(|w| Token {
                    span: conv_span(&w.span),
                    is_space: matches!(w.value, uiua::ast::Word::Spaces),
                })
                .collect()]),
            uiua::ast::Item::Binding(b) => AstItem::Binding(conv_span(&b.span())),
            _ => AstItem::Other,
        })
        .collect()
}

fn debugger_for(source: &str) -> Debugger {
    let mut inputs = uiua::Inputs::default();
    let (ast, errors, _diagnostics) = uiua::parse(source, (), &mut inputs);
    assert!(errors.is_empty(), "parse errors in test source");
    let items = convert_items(&ast);
    let spans = extract(&items);
    Debugger::new(source.as_bytes().to_vec(), spans).expect("spans must fit the source")
}

#[test]
fn forward_stops_at_the_last_step() {
    let c = cursor_forward(Cursor::AtStep(2), 3);
    assert_eq!(c, Cursor::AtStep(2));
    let again = cursor_forward(c, 3);
    assert_eq!(again, Cursor::AtStep(2));
}

#[test]
fn forward_from_unstarted_reaches_step_zero() {
    assert_eq!(cursor_forward(Cursor::Unstarted, 3), Cursor::AtStep(0));
    assert_eq!(cursor_forward(Cursor::Unstarted, 0), Cursor::Unstarted);
}

#[test]
fn backward_stops_at_step_zero_and_unstarted() {
    assert_eq!(cursor_backward(Cursor::AtStep(0)), Cursor::AtStep(0));
    assert_eq!(cursor_backward(Cursor::Unstarted), Cursor::Unstarted);
    assert_eq!(cursor_backward(Cursor::AtStep(2)), Cursor::AtStep(1));
}

#[test]
fn forward_n_then_backward_n_returns_to_step_zero() {
    let n: usize = 3;
    let mut c = Cursor::Unstarted;
    for _ in 0..n {
        c = cursor_forward(c, n);
    }
    assert_eq!(c, Cursor::AtStep(2));
    for _ in 0..n {
        c = cursor_backward(c);
    }
    // Backward at step 0 is a no-op, so the round trip ends at step 0,
    // not at the unstarted state.
    assert_eq!(c, Cursor::AtStep(0));
}

#[test]
fn accumulate_joins_step_texts_with_newlines() {
    let steps = vec![
        Step { span: span(1, 0, 1, 1), text: b"2".to_vec() },
        Step { span: span(1, 2, 1, 3), text: b"1".to_vec() },
        Step { span: span(1, 4, 1, 5), text: b"+".to_vec() },
    ];
    assert_eq!(accumulate(&steps, 0), b"2".to_vec());
    assert_eq!(accumulate(&steps, 1), b"2\n1".to_vec());
    assert_eq!(accumulate(&steps, 2), b"2\n1\n+".to_vec());
}

#[test]
fn new_rejects_a_span_off_the_source() {
    // Line 2 does not exist in a one-line source.
    let r = Debugger::new(b"abc".to_vec(), vec![span(2, 0, 2, 1)]);
    assert!(matches!(r, Err(BuildError::InvalidSpan(0))));
}

#[test]
fn new_rejects_a_byte_range_outside_its_line() {
    // Line 1 holds bytes 0..3; a span reaching byte 9 does not fit.
    let r = Debugger::new(b"abc\ndef".to_vec(), vec![span(1, 0, 1, 9)]);
    assert!(matches!(r, Err(BuildError::InvalidSpan(0))));
}

#[test]
fn new_reports_the_first_bad_span() {
    let r = Debugger::new(
        b"abc".to_vec(),
        vec![span(1, 0, 1, 1), span(1, 0, 1, 99)],
    );
    assert!(matches!(r, Err(BuildError::InvalidSpan(1))));
}

#[test]
fn new_starts_before_the_first_step() {
    let d = Debugger::new(b"abc".to_vec(), vec![span(1, 0, 1, 1)]).unwrap();
    assert_eq!(d.cursor, Cursor::Unstarted);
    assert!(d.stack.is_empty());
}

#[test]
fn quitting_from_unstarted_changes_nothing() {
    let mut d = debugger_for("+ 1 2");
    let outcome = d.handle_event(NavEvent::Quit);
    assert!(matches!(outcome, Outcome::Quit));
    assert_eq!(d.cursor, Cursor::Unstarted);
    assert!(d.stack.is_empty());
}

#[test]
fn stepping_runs_the_accumulated_source() {
    // "+ 1 2": tokens reversed give steps "2", "1", "+".
    let mut d = debugger_for("+ 1 2");
    assert!(matches!(d.handle_event(NavEvent::Forward), Outcome::Moved));
    assert_eq!(d.cursor, Cursor::AtStep(0));
    assert_eq!(d.stack, vec!["2".to_string()]);
    assert!(matches!(d.handle_event(NavEvent::Forward), Outcome::Moved));
    assert!(matches!(d.handle_event(NavEvent::Forward), Outcome::Moved));
    assert_eq!(d.cursor, Cursor::AtStep(2));
    assert_eq!(d.stack, vec!["3".to_string()]);
}

#[test]
fn forward_at_the_last_step_is_a_silent_no_op() {
    let mut d = debugger_for("+ 1 2");
    for _ in 0..3 {
        assert!(matches!(d.handle_event(NavEvent::Forward), Outcome::Moved));
    }
    let stack_before = d.stack.clone();
    assert!(matches!(d.handle_event(NavEvent::Forward), Outcome::Stayed));
    assert_eq!(d.cursor, Cursor::AtStep(2));
    assert_eq!(d.stack, stack_before);
}

#[test]
fn backward_at_step_zero_is_a_silent_no_op() {
    let mut d = debugger_for("+ 1 2");
    assert!(matches!(d.handle_event(NavEvent::Forward), Outcome::Moved));
    let stack_before = d.stack.clone();
    assert!(matches!(d.handle_event(NavEvent::Backward), Outcome::Stayed));
    assert_eq!(d.cursor, Cursor::AtStep(0));
    assert_eq!(d.stack, stack_before);
}

#[test]
fn backward_from_unstarted_is_a_silent_no_op() {
    let mut d = debugger_for("+ 1 2");
    assert!(matches!(d.handle_event(NavEvent::Backward), Outcome::Stayed));
    assert_eq!(d.cursor, Cursor::Unstarted);
}

#[test]
fn an_evaluator_error_reverts_the_move() {
    // A lone "+" pops from an empty stack and fails to run.
    let mut d = debugger_for("+");
    let outcome = d.handle_event(NavEvent::Forward);
    assert!(matches!(outcome, Outcome::EvalFailed(_)));
    assert_eq!(d.cursor, Cursor::Unstarted);
    assert!(d.stack.is_empty());
}

#[test]
fn stepping_through_a_binding_program_reaches_the_final_value() {
    // A binding is one whole step; the second line's tokens step in
    // right-to-left execution order. A is 3, and A times A is 9.
    let mut d = debugger_for("A \u{2190} + 1 2\n\u{00d7} A A");
    let mut moves = 0;
    loop {
        match d.handle_event(NavEvent::Forward) {
            Outcome::Moved => moves += 1,
            Outcome::Stayed => break,
            other => panic!("unexpected outcome while stepping: {:?}", other),
        }
        assert!(moves <= 16, "stepping did not terminate");
    }
    // One binding step plus three tokens of the expression line.
    assert_eq!(moves, 4);
    assert_eq!(d.stack, vec!["9".to_string()]);
}

#[test]
fn re_execution_of_the_same_source_is_deterministic() {
    let program = b"+ 1 2".to_vec();
    let a = uiua_debugger::eval::eval_program(&program).expect("program runs");
    let b = uiua_debugger::eval::eval_program(&program).expect("program runs");
    assert_eq!(a, b);
    assert_eq!(a, vec!["3".to_string()]);
}
