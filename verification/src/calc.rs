//! Constant evaluation over MIR values and AST expressions.
use vstd::prelude::*;
use crate::ast::Expr;
use crate::mir::{MirRvalue, rvalue_same, copy_rvalue};

verus! {

/// Constant folding and evaluation; no folding rule is defined yet.
pub struct Calc;

impl Calc {
    /// Folds the constants of a value; with no folding rule yet, the value comes back as it
    /// is.
    pub fn fold_rvalue(rv: &MirRvalue) -> (r: MirRvalue)
        ensures
            rvalue_same(*rv, r),
    {
        copy_rvalue(rv)
    }

    /// The value of a constant integer expression; with no evaluation rule yet, none is
    /// known.
    pub fn eval_expr(_expr: &Expr) -> (r: Option<i64>)
        ensures
            r is None,
    {
        None
    }
}

} // verus!
