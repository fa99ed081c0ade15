//! Running assembled programs: the interpreter and the debugger.
pub mod debugger;
pub mod interpreter;

use vstd::prelude::*;

verus! {

/// These are all the issues that can occur when running a subleq program.
/// Breakpoints are specific to this assembler: they occur on a jump to -2.
#[derive(Debug, PartialEq, Eq, Structural, Clone, Copy)]
pub enum RuntimeError {
    AOutOfRange(usize),
    BOutOfRange(usize),
    COutOfRange(usize),
    Breakpoint(usize),
}

} // verus!
