//! An interactive step-through debugger library for a stack-based,
//! right-to-left language. A parsed program is flattened into an ordered
//! list of atomic steps (tokens of expression lines in execution order, and
//! whole bindings); a cursor moves forward and backward through the steps;
//! on each move the accumulated source up to the cursor is re-executed from
//! scratch and the current step's span is highlighted in the source view.

pub mod eval;
pub mod extract;
pub mod render;
pub mod span;
pub mod step;
