//! Expansion of surface constructs (`for` loops, `?`) in HIR.
use vstd::prelude::*;
use crate::hir::HirProgram;

verus! {

/// The expansion pass; no construct is expanded yet.
pub struct Elaborator;

impl Elaborator {
    /// Expands the program's surface constructs; with none expanded yet, the program comes
    /// back unchanged.
    pub fn elaborate(program: HirProgram) -> (r: HirProgram)
        ensures
            r == program,
    {
        program
    }
}

} // verus!
