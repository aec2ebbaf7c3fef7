//! The execution bridge: a fresh evaluator session runs the accumulated
//! step source from scratch and yields the resulting value stack as
//! display strings. The evaluator is an outside runtime with a native
//! system backend, so nothing is assumed of what a program leaves on the
//! stack; callers state what holds whatever comes back.

use vstd::prelude::*;

verus! {

/// The outside evaluator's runtime session type, opaque to verification.
#[verifier::external_type_specification]
#[verifier::external_body]
pub struct ExUiua(uiua::Uiua);

/// Relies on `uiua::Uiua::with_native_sys`: a fresh runtime session with
/// the native system backend and an empty value stack.
#[verifier::external_body]
fn new_session() -> uiua::Uiua {
    uiua::Uiua::with_native_sys()
}

/// Relies on `uiua::Uiua::run_str`: compiles and runs the given source in
/// the session, returning `Err` with the error's display text when the
/// source fails to compile or to run.
#[verifier::external_body]
fn run_program(rt: &mut uiua::Uiua, program: &Vec<u8>) -> (r: Result<(), String>) {
    match rt.run_str(&String::from_utf8_lossy(program)) {
        Ok(_) => Ok(()),
        Err(e) => Err(format!("{}", e)),
    }
}

/// Relies on `uiua::Uiua::take_stack`: drains the session's value stack,
/// here converted to one display string per value, bottom first.
#[verifier::external_body]
fn take_stack_display(rt: &mut uiua::Uiua) -> Vec<String> {
    rt.take_stack().iter().map(|v| format!("{}", v)).collect()
}

/// Runs a program in a fresh evaluator session and returns the resulting
/// value stack as display strings, or the evaluator's error text. Each
/// call starts from scratch: no evaluator state survives between calls.
pub fn eval_program(program: &Vec<u8>) -> (r: Result<Vec<String>, String>) {
    let mut rt = new_session();
    match run_program(&mut rt, program) {
        Ok(()) => Ok(take_stack_display(&mut rt)),
        Err(e) => Err(e),
    }
}

} // verus!
