//! Simplification of MIR programs (constant folding, dead code removal).
use vstd::prelude::*;
use crate::mir::MirProgram;

verus! {

/// The simplification pass; no rewrite is applied yet.
pub struct Simplify;

impl Simplify {
    /// Simplifies the program; with no rewrite yet, the program comes back unchanged.
    pub fn run(program: MirProgram) -> (r: MirProgram)
        ensures
            r == program,
    {
        program
    }
}

} // verus!
