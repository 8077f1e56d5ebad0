//! Lowering of checked HIR functions to MIR basic blocks.
use vstd::prelude::*;
use std::collections::HashMap;
use crate::ast::{Type, copy_type, copy_opt_type, copy_literal, literal_same, type_same, opt_type_same};
use crate::hir::{HirProgram, HirModel, HirFn, HirBlock, HirStmt, HirExpr, HirExprKind, HirCallArg, Span};
use crate::mir::{
    MirProgram, MirFunction, MirArg, MirLocal, MirBasicBlock, MirStmt, MirTerminator, MirPlace,
    MirRvalue, BasicBlockId, LocalVarId, ArgId,
};
use crate::text::{push_str, str_eq, string_views, lemma_views_push};

verus! {

broadcast use vstd::std_specs::vec::axiom_vec_index_decreases;

// ===== what lowering handles =====

/// An expression that lowering handles: literals, binary operations, calls, struct
/// initialisers and blocks, built from such parts. `in_loop` tells whether a `break` in it
/// has a loop to leave.
pub open spec fn expr_lowerable(e: HirExpr, in_loop: bool) -> bool
    decreases e,
{
    match e.kind {
        HirExprKind::Literal(_) => true,
        HirExprKind::BinaryOp { left, right, .. } => expr_lowerable(*left, in_loop) && expr_lowerable(*right, in_loop),
        HirExprKind::Call { args, .. } => forall|k: int| 0 <= k < args@.len() ==> match #[trigger] args@[k] {
            HirCallArg::Positional(x) => expr_lowerable(x, in_loop),
            HirCallArg::Named(_, x) => expr_lowerable(x, in_loop),
        },
        HirExprKind::StructInit { fields, .. } => forall|k: int| 0 <= k < fields@.len() ==> expr_lowerable(#[trigger] fields@[k].1, in_loop),
        HirExprKind::Block(b) => forall|k: int| 0 <= k < b.stmts@.len() ==> stmt_lowerable(#[trigger] b.stmts@[k], in_loop),
        _ => false,
    }
}

/// A statement that lowering handles: anything but a `for` loop and an assignment (whose
/// target names a variable, and variables are not resolved at this stage); a `break` only
/// inside a loop.
pub open spec fn stmt_lowerable(s: HirStmt, in_loop: bool) -> bool
    decreases s,
{
    match s {
        HirStmt::Let { init, .. } => expr_lowerable(init, in_loop),
        HirStmt::Expr { expr, .. } => expr_lowerable(expr, in_loop),
        HirStmt::Return { expr, .. } => match expr {
            Some(e) => expr_lowerable(e, in_loop),
            None => true,
        },
        HirStmt::While { cond, body, .. } => expr_lowerable(cond, true)
            && forall|k: int| 0 <= k < body.stmts@.len() ==> stmt_lowerable(#[trigger] body.stmts@[k], true),
        HirStmt::For { .. } => false,
        HirStmt::Assign { .. } => false,
        HirStmt::Loop { body, .. } => forall|k: int| 0 <= k < body.stmts@.len() ==> stmt_lowerable(#[trigger] body.stmts@[k], true),
        HirStmt::Break { .. } => in_loop,
        HirStmt::UnsafeBlock { body, .. } => forall|k: int| 0 <= k < body.stmts@.len() ==> stmt_lowerable(#[trigger] body.stmts@[k], in_loop),
    }
}

/// Every statement of the block is one that lowering handles.
pub open spec fn block_lowerable(b: HirBlock, in_loop: bool) -> bool {
    forall|k: int| 0 <= k < b.stmts@.len() ==> stmt_lowerable(#[trigger] b.stmts@[k], in_loop)
}

/// The functions of the models, one model after another.
pub open spec fn model_fns(models: Seq<HirModel>) -> Seq<HirFn>
    decreases models.len(),
{
    if models.len() == 0 {
        Seq::empty()
    } else {
        model_fns(models.drop_last()) + models.last().functions@
    }
}

/// The functions that a program lowers, in the order they are lowered: the free functions,
/// then those of each model.
pub open spec fn lowered_fns(p: HirProgram) -> Seq<HirFn> {
    p.fns@ + model_fns(p.models@)
}

/// Every function of the program has a body that lowering handles.
pub open spec fn program_lowerable(p: HirProgram) -> bool {
    forall|i: int| 0 <= i < lowered_fns(p).len() ==> block_lowerable(#[trigger] lowered_fns(p)[i].body, false)
}

// ===== the names of the calls =====

/// The name under which a call is listed: `q::f` for a qualified call, else `f`.
pub open spec fn call_key(qualifier: Option<String>, func: String) -> Seq<char> {
    match qualifier {
        Some(q) => q@ + "::"@ + func@,
        None => func@,
    }
}

/// Every call in the expression is listed in `names`.
pub open spec fn expr_calls_in(e: HirExpr, names: Set<Seq<char>>) -> bool
    decreases e,
{
    match e.kind {
        HirExprKind::BinaryOp { left, right, .. } => expr_calls_in(*left, names) && expr_calls_in(*right, names),
        HirExprKind::Call { qualifier, func, args, .. } => names.contains(call_key(qualifier, func))
            && forall|k: int| 0 <= k < args@.len() ==> match #[trigger] args@[k] {
                HirCallArg::Positional(x) => expr_calls_in(x, names),
                HirCallArg::Named(_, x) => expr_calls_in(x, names),
            },
        HirExprKind::StructInit { fields, .. } => forall|k: int| 0 <= k < fields@.len() ==> expr_calls_in(#[trigger] fields@[k].1, names),
        HirExprKind::Block(b) => forall|k: int| 0 <= k < b.stmts@.len() ==> stmt_calls_in(#[trigger] b.stmts@[k], names),
        _ => true,
    }
}

/// Every call in the statement is listed in `names`.
pub open spec fn stmt_calls_in(s: HirStmt, names: Set<Seq<char>>) -> bool
    decreases s,
{
    match s {
        HirStmt::Let { init, .. } => expr_calls_in(init, names),
        HirStmt::Expr { expr, .. } => expr_calls_in(expr, names),
        HirStmt::Return { expr, .. } => match expr {
            Some(e) => expr_calls_in(e, names),
            None => true,
        },
        HirStmt::While { cond, body, .. } => expr_calls_in(cond, names)
            && forall|k: int| 0 <= k < body.stmts@.len() ==> stmt_calls_in(#[trigger] body.stmts@[k], names),
        HirStmt::Loop { body, .. } => forall|k: int| 0 <= k < body.stmts@.len() ==> stmt_calls_in(#[trigger] body.stmts@[k], names),
        HirStmt::UnsafeBlock { body, .. } => forall|k: int| 0 <= k < body.stmts@.len() ==> stmt_calls_in(#[trigger] body.stmts@[k], names),
        _ => true,
    }
}

/// Every call in the block is listed in `names`.
pub open spec fn block_calls_in(b: HirBlock, names: Set<Seq<char>>) -> bool {
    forall|k: int| 0 <= k < b.stmts@.len() ==> stmt_calls_in(#[trigger] b.stmts@[k], names)
}

proof fn lemma_expr_calls_grow(e: HirExpr, a: Set<Seq<char>>, b: Set<Seq<char>>)
    requires
        expr_calls_in(e, a),
        a.subset_of(b),
    ensures
        expr_calls_in(e, b),
    decreases e,
{
    match e.kind {
        HirExprKind::BinaryOp { left, right, .. } => {
            lemma_expr_calls_grow(*left, a, b);
            lemma_expr_calls_grow(*right, a, b);
        },
        HirExprKind::Call { args, .. } => {
            assert forall|k: int| 0 <= k < args@.len() implies match #[trigger] args@[k] {
                HirCallArg::Positional(x) => expr_calls_in(x, b),
                HirCallArg::Named(_, x) => expr_calls_in(x, b),
            } by {
                assert(decreases_to!(args => args[k]));
                match args@[k] {
                    HirCallArg::Positional(x) => lemma_expr_calls_grow(x, a, b),
                    HirCallArg::Named(_, x) => lemma_expr_calls_grow(x, a, b),
                }
            }
        },
        HirExprKind::StructInit { fields, .. } => {
            assert forall|k: int| 0 <= k < fields@.len() implies expr_calls_in(#[trigger] fields@[k].1, b) by {
                assert(decreases_to!(fields => fields[k]));
                lemma_expr_calls_grow(fields@[k].1, a, b);
            }
        },
        HirExprKind::Block(blk) => {
            assert forall|k: int| 0 <= k < blk.stmts@.len() implies stmt_calls_in(#[trigger] blk.stmts@[k], b) by {
                assert(decreases_to!(blk.stmts => blk.stmts[k]));
                lemma_stmt_calls_grow(blk.stmts@[k], a, b);
            }
        },
        _ => {},
    }
}

proof fn lemma_stmt_calls_grow(s: HirStmt, a: Set<Seq<char>>, b: Set<Seq<char>>)
    requires
        stmt_calls_in(s, a),
        a.subset_of(b),
    ensures
        stmt_calls_in(s, b),
    decreases s,
{
    match s {
        HirStmt::Let { init, .. } => lemma_expr_calls_grow(init, a, b),
        HirStmt::Expr { expr, .. } => lemma_expr_calls_grow(expr, a, b),
        HirStmt::Return { expr, .. } => {
            if let Some(e) = expr {
                lemma_expr_calls_grow(e, a, b);
            }
        },
        HirStmt::While { cond, body, .. } => {
            lemma_expr_calls_grow(cond, a, b);
            assert forall|k: int| 0 <= k < body.stmts@.len() implies stmt_calls_in(#[trigger] body.stmts@[k], b) by {
                assert(decreases_to!(body.stmts => body.stmts[k]));
                lemma_stmt_calls_grow(body.stmts@[k], a, b);
            }
        },
        HirStmt::Loop { body, .. } => {
            assert forall|k: int| 0 <= k < body.stmts@.len() implies stmt_calls_in(#[trigger] body.stmts@[k], b) by {
                assert(decreases_to!(body.stmts => body.stmts[k]));
                lemma_stmt_calls_grow(body.stmts@[k], a, b);
            }
        },
        HirStmt::UnsafeBlock { body, .. } => {
            assert forall|k: int| 0 <= k < body.stmts@.len() implies stmt_calls_in(#[trigger] body.stmts@[k], b) by {
                assert(decreases_to!(body.stmts => body.stmts[k]));
                lemma_stmt_calls_grow(body.stmts@[k], a, b);
            }
        },
        _ => {},
    }
}

// ===== what the lowered values are =====

/// Statements that are all `let`s whose initializers are literals and operators.
pub open spec fn flat_lets(stmts: Seq<HirStmt>) -> bool {
    forall|j: int| 0 <= j < stmts.len() ==> (#[trigger] stmts[j] matches HirStmt::Let { init, .. } && flat_expr(init))
}

/// `s` is what the `let` `st` lowers to: its initializer's value assigned to local `local`.
pub open spec fn let_lowered(s: MirStmt, st: HirStmt, local: int) -> bool {
    st matches HirStmt::Let { init, .. } && (s matches MirStmt::Assign { place, rvalue }
        && place == MirPlace::Local(local as usize) && rvalue_of(rvalue, init))
}

/// A function whose body is [`flat_lets`] lowers to a first block holding one assignment per
/// `let`, to locals `0`, `1`, ... in order.
pub open spec fn flat_body_lowered(m: MirFunction, f: HirFn) -> bool {
    flat_lets(f.body.stmts@) ==> {
        &&& m.blocks@.len() >= 1
        &&& m.blocks@[0].stmts@.len() == f.body.stmts@.len()
        &&& forall|j: int| 0 <= j < f.body.stmts@.len() ==> let_lowered(#[trigger] m.blocks@[0].stmts@[j], f.body.stmts@[j], j)
    }
}

/// An expression of literals and operators only, which lowers without touching the builder.
pub open spec fn flat_expr(e: HirExpr) -> bool
    decreases e,
{
    match e.kind {
        HirExprKind::Literal(_) => true,
        HirExprKind::BinaryOp { left, right, .. } => flat_expr(*left) && flat_expr(*right),
        _ => false,
    }
}

/// `rv` is the value that lowering gives for `e`: the same literal, operation, call, struct or
/// block value, with each part lowered in turn.
pub open spec fn rvalue_of(rv: MirRvalue, e: HirExpr) -> bool
    decreases e,
{
    match e.kind {
        HirExprKind::Literal(l) => rv matches MirRvalue::Literal(l2) && literal_same(l2, l),
        HirExprKind::BinaryOp { op, left, right } => rv matches MirRvalue::BinaryOp { op: o2, left: l2, right: r2 }
            && o2 == op && rvalue_of(*l2, *left) && rvalue_of(*r2, *right),
        HirExprKind::Call { func, generic_args, args, .. } => rv matches MirRvalue::IntrinsicCall { func: f2, args: a2, generic_args: g2 }
            && f2@ == func@ && a2@.len() == args@.len()
            && (forall|k: int| 0 <= k < args@.len() ==> match #[trigger] args@[k] {
                HirCallArg::Positional(x) => rvalue_of(a2@[k], x),
                HirCallArg::Named(_, x) => rvalue_of(a2@[k], x),
            })
            && g2@.len() == generic_args@.len()
            && forall|k: int| 0 <= k < generic_args@.len() ==> type_same(#[trigger] g2@[k], generic_args@[k]),
        HirExprKind::StructInit { struct_name, fields, .. } => rv matches MirRvalue::StructInit { struct_name: n2, fields: f2 }
            && n2@ == struct_name@ && f2@.len() == fields@.len()
            && forall|k: int| 0 <= k < fields@.len() ==> (#[trigger] f2@[k]).0@ == fields@[k].0@ && rvalue_of(f2@[k].1, fields@[k].1),
        HirExprKind::Block(b) => if b.stmts@.len() == 0 {
            rv is Unit
        } else {
            match b.stmts@[b.stmts@.len() - 1] {
                HirStmt::Expr { expr, .. } => rvalue_of(rv, expr),
                _ => rv is Unit,
            }
        },
        _ => true,
    }
}

/// The value of a block: that of its last statement where it is an expression statement,
/// else `()`.
pub open spec fn block_value(rv: MirRvalue, b: HirBlock) -> bool {
    if b.stmts@.len() == 0 {
        rv is Unit
    } else {
        match b.stmts@[b.stmts@.len() - 1] {
            HirStmt::Expr { expr, .. } => rvalue_of(rv, expr),
            _ => rv is Unit,
        }
    }
}


// ===== the lowering state =====

/// The blocks that `break` and `continue` jump to in the innermost loop.
struct LoopContext {
    break_block: BasicBlockId,
    continue_block: BasicBlockId,
}

/// The state of lowering one function: its arguments, locals and blocks so far, the block
/// that statements are added to, and the loops around the current statement.
struct MirBuilderContext {
    args: Vec<MirArg>,
    locals: Vec<MirLocal>,
    blocks: Vec<MirBasicBlock>,
    current_block: BasicBlockId,
    temp_counter: usize,
    loop_stack: Vec<LoopContext>,
    return_ty: Option<Type>,
}

/// Every block that the terminator jumps to is below `n`.
pub open spec fn targets_in(t: MirTerminator, n: int) -> bool {
    match t {
        MirTerminator::Goto(b) => b < n,
        MirTerminator::If { then_block, else_block, .. } => then_block < n && else_block < n,
        MirTerminator::Call { target_block, .. } => target_block < n,
        MirTerminator::Switch { targets, default, .. } => default < n
            && forall|k: int| 0 <= k < targets@.len() ==> (#[trigger] targets@[k]).1 < n,
        _ => true,
    }
}

/// A block that ends with a `return`.
pub open spec fn ends_in_return(b: MirBasicBlock) -> bool {
    b.terminator is Return
}

/// The set of names in a list of strings.
pub open spec fn names_of(v: Seq<String>) -> Set<Seq<char>> {
    string_views(v).to_set()
}

proof fn lemma_targets_grow(t: MirTerminator, n: int, m: int)
    requires
        targets_in(t, n),
        n <= m,
    ensures
        targets_in(t, m),
{
}

/// Lists a call's name, unless it is listed already.
fn note_call(names: &mut Vec<String>, key: String)
    requires
        string_views(old(names)@).no_duplicates(),
    ensures
        string_views(final(names)@).no_duplicates(),
        names_of(final(names)@) == names_of(old(names)@).insert(key@),
{
    let mut k: usize = 0;
    while k < names.len()
        invariant
            k <= names@.len(),
            *names == *old(names),
            string_views(names@).no_duplicates(),
            forall|j: int| 0 <= j < k ==> names@[j]@ != key@,
        decreases names.len() - k,
    {
        if str_eq(names[k].as_str(), key.as_str()) {
            proof {
                assert(string_views(names@)[k as int] == key@);
                assert(names_of(names@).contains(key@));
                assert(names_of(names@).insert(key@) =~= names_of(names@));
            }
            return;
        }
        k += 1;
    }
    proof {
        lemma_views_push(names@, key);
        string_views(names@).lemma_push_to_set_commute(key@);
        assert(!string_views(names@).contains(key@));
        let sv = string_views(names@.push(key));
        assert forall|i: int, j: int| 0 <= i < sv.len() && 0 <= j < sv.len() && i != j implies sv[i] != sv[j] by {
            if i < names@.len() && j < names@.len() {
                assert(string_views(names@)[i] == sv[i]);
                assert(string_views(names@)[j] == sv[j]);
            } else if i < names@.len() {
                assert(string_views(names@)[i] == sv[i]);
            } else if j < names@.len() {
                assert(string_views(names@)[j] == sv[j]);
            }
        }
    }
    names.push(key);
}

fn copy_types(v: &Vec<Type>) -> (r: Vec<Type>)
    ensures
        r@.len() == v@.len(),
        forall|k: int| 0 <= k < v@.len() ==> type_same(#[trigger] r@[k], v@[k]),
{
    let mut out: Vec<Type> = Vec::new();
    let mut k: usize = 0;
    while k < v.len()
        invariant
            k <= v@.len(),
            out@.len() == k,
            forall|j: int| 0 <= j < k ==> type_same(#[trigger] out@[j], v@[j]),
        decreases v.len() - k,
    {
        out.push(copy_type(&v[k]));
        k += 1;
    }
    out
}

impl MirBuilderContext {
    /// Every jump and every loop target names an existing block.
    spec fn targets_wf(&self) -> bool {
        &&& forall|i: int| 0 <= i < self.blocks@.len() ==> targets_in(#[trigger] self.blocks@[i].terminator, self.blocks@.len() as int)
        &&& forall|i: int| 0 <= i < self.loop_stack@.len() ==> (#[trigger] self.loop_stack@[i]).break_block < self.blocks@.len()
            && self.loop_stack@[i].continue_block < self.blocks@.len()
    }

    /// The current block exists and every jump names an existing block.
    spec fn wf(&self) -> bool {
        &&& self.current_block < self.blocks@.len()
        &&& self.targets_wf()
    }

    /// `new` extends `old`: blocks only added, locals only appended, the arguments, loops and
    /// return type unchanged; of the blocks of `old` only the current one may have changed, and
    /// the current block is the same or a new one.
    spec fn grows(new: Self, old: Self) -> bool {
        &&& old.blocks@.len() <= new.blocks@.len()
        &&& old.locals@.len() <= new.locals@.len()
        &&& forall|i: int| 0 <= i < old.locals@.len() ==> #[trigger] new.locals@[i] == old.locals@[i]
        &&& new.args == old.args
        &&& new.loop_stack@ == old.loop_stack@
        &&& new.temp_counter == old.temp_counter
        &&& new.return_ty == old.return_ty
        &&& (new.current_block == old.current_block || new.current_block >= old.blocks@.len())
        &&& forall|i: int| 0 <= i < old.blocks@.len() && i != old.current_block
            ==> #[trigger] new.blocks@[i] == old.blocks@[i]
    }

    fn new(f: &HirFn) -> (r: MirBuilderContext)
        ensures
            r.args@.len() == 0,
            r.locals@.len() == 0,
            r.blocks@.len() == 0,
            r.loop_stack@.len() == 0,
            r.current_block == 0,
            r.temp_counter == 0,
            opt_type_same(r.return_ty, f.return_type),
    {
        MirBuilderContext {
            args: Vec::new(),
            locals: Vec::new(),
            blocks: Vec::new(),
            current_block: 0,
            temp_counter: 0,
            loop_stack: Vec::new(),
            return_ty: copy_opt_type(&f.return_type),
        }
    }

    /// Adds an empty block, ending in `return` until a terminator is set, and gives its id.
    fn new_block(&mut self, _label: &str) -> (id: BasicBlockId)
        requires
            old(self).targets_wf(),
        ensures
            id == old(self).blocks@.len(),
            final(self).blocks@.len() == old(self).blocks@.len() + 1,
            forall|i: int| 0 <= i < old(self).blocks@.len() ==> #[trigger] final(self).blocks@[i] == old(self).blocks@[i],
            final(self).blocks@[id as int].stmts@.len() == 0,
            final(self).blocks@[id as int].terminator == MirTerminator::Return(None),
            final(self).targets_wf(),
            final(self).current_block == old(self).current_block,
            final(self).locals == old(self).locals,
            MirBuilderContext::grows(*final(self), *old(self)),
    {
        let id = self.blocks.len();
        proof {
            assert forall|i: int| 0 <= i < self.blocks@.len() implies targets_in(#[trigger] self.blocks@[i].terminator, self.blocks@.len() as int + 1) by {
                lemma_targets_grow(self.blocks@[i].terminator, self.blocks@.len() as int, self.blocks@.len() as int + 1);
            }
        }
        self.blocks.push(MirBasicBlock { stmts: Vec::new(), terminator: MirTerminator::Return(None) });
        id
    }

    fn set_current_block(&mut self, id: BasicBlockId)
        requires
            id < old(self).blocks@.len(),
        ensures
            *final(self) == (MirBuilderContext { current_block: id, ..*old(self) }),
    {
        self.current_block = id;
    }

    /// Appends a statement to the current block.
    fn add_stmt(&mut self, stmt: MirStmt)
        requires
            old(self).wf(),
        ensures
            final(self).wf(),
            MirBuilderContext::grows(*final(self), *old(self)),
            final(self).current_block == old(self).current_block,
            final(self).blocks@.len() == old(self).blocks@.len(),
            final(self).blocks@[old(self).current_block as int].terminator == old(self).blocks@[old(self).current_block as int].terminator,
            final(self).locals == old(self).locals,
            final(self).blocks@[old(self).current_block as int].stmts@
                == old(self).blocks@[old(self).current_block as int].stmts@.push(stmt),
            forall|i: int| 0 <= i < old(self).blocks@.len() && i != old(self).current_block
                ==> #[trigger] final(self).blocks@[i] == old(self).blocks@[i],
    {
        let cur = self.current_block;
        let mut b = MirBasicBlock { stmts: Vec::new(), terminator: MirTerminator::Return(None) };
        std::mem::swap(&mut b, &mut self.blocks[cur]);
        b.stmts.push(stmt);
        std::mem::swap(&mut b, &mut self.blocks[cur]);
    }

    /// Closes the current block with `term`.
    fn set_terminator(&mut self, term: MirTerminator)
        requires
            old(self).wf(),
            targets_in(term, old(self).blocks@.len() as int),
        ensures
            final(self).wf(),
            MirBuilderContext::grows(*final(self), *old(self)),
            final(self).current_block == old(self).current_block,
            final(self).blocks@.len() == old(self).blocks@.len(),
            final(self).blocks@[old(self).current_block as int].terminator == term,
    {
        let cur = self.current_block;
        let mut b = MirBasicBlock { stmts: Vec::new(), terminator: MirTerminator::Return(None) };
        std::mem::swap(&mut b, &mut self.blocks[cur]);
        b.terminator = term;
        std::mem::swap(&mut b, &mut self.blocks[cur]);
    }

    /// Whether the current block ends in a `return`.
    fn current_returns(&self) -> (r: bool)
        requires
            self.wf(),
        ensures
            r == (self.blocks@[self.current_block as int].terminator is Return),
    {
        match &self.blocks[self.current_block].terminator {
            MirTerminator::Return(_) => true,
            _ => false,
        }
    }

    /// Adds a mutable compiler temporary of type `ty` and gives its id.
    fn new_temp(&mut self, ty: Type, persist: bool) -> (id: LocalVarId)
        ensures
            id == old(self).locals@.len(),
            final(self).locals@ == old(self).locals@.push(MirLocal { ty, mutability: true, persist, name: None }),
            final(self).blocks == old(self).blocks,
    {
        let id = self.locals.len();
        self.locals.push(MirLocal { ty, mutability: true, persist, name: None });
        id
    }

    /// Adds an argument and gives its id.
    fn add_arg(&mut self, name: &str, ty: Type) -> (id: ArgId)
        ensures
            id == old(self).args@.len(),
            final(self).args@.len() == old(self).args@.len() + 1,
            forall|i: int| 0 <= i < old(self).args@.len() ==> #[trigger] final(self).args@[i] == old(self).args@[i],
            final(self).args@[id as int].name@ == name@,
            final(self).args@[id as int].ty == ty,
            final(self).blocks == old(self).blocks,
            final(self).current_block == old(self).current_block,
            final(self).loop_stack == old(self).loop_stack,
            final(self).locals == old(self).locals,
    {
        let id = self.args.len();
        self.args.push(MirArg { name: name.to_string(), ty });
        id
    }

    /// Closes every block that does not end in a `return` with `return ()`.
    fn finalize(&mut self)
        requires
            old(self).wf(),
        ensures
            final(self).blocks@.len() == old(self).blocks@.len(),
            forall|i: int| 0 <= i < final(self).blocks@.len() ==> ends_in_return(#[trigger] final(self).blocks@[i]),
            forall|i: int| 0 <= i < final(self).blocks@.len() ==> (#[trigger] final(self).blocks@[i]).stmts == old(self).blocks@[i].stmts
                && final(self).blocks@[i].terminator == if old(self).blocks@[i].terminator is Return {
                    old(self).blocks@[i].terminator
                } else {
                    MirTerminator::Return(Some(MirRvalue::Unit))
                },
            final(self).args == old(self).args,
            final(self).locals == old(self).locals,
    {
        let n = self.blocks.len();
        let mut k: usize = 0;
        while k < n
            invariant
                k <= n,
                n == self.blocks@.len(),
                self.args == old(self).args,
                self.locals == old(self).locals,
                forall|i: int| 0 <= i < k ==> ends_in_return(#[trigger] self.blocks@[i]),
                forall|i: int| 0 <= i < n ==> (#[trigger] self.blocks@[i]).stmts == old(self).blocks@[i].stmts
                    && self.blocks@[i].terminator == if i >= k || old(self).blocks@[i].terminator is Return {
                        old(self).blocks@[i].terminator
                    } else {
                        MirTerminator::Return(Some(MirRvalue::Unit))
                    },
            decreases n - k,
        {
            let is_return = match &self.blocks[k].terminator {
                MirTerminator::Return(_) => true,
                _ => false,
            };
            if !is_return {
                let mut b = MirBasicBlock { stmts: Vec::new(), terminator: MirTerminator::Return(None) };
                std::mem::swap(&mut b, &mut self.blocks[k]);
                b.terminator = MirTerminator::Return(Some(MirRvalue::Unit));
                std::mem::swap(&mut b, &mut self.blocks[k]);
            }
            k += 1;
        }
    }
}


/// `new` lists every name of `old`, and no name twice.
pub open spec fn names_grow(new: Seq<String>, old: Seq<String>) -> bool {
    &&& string_views(new).no_duplicates()
    &&& names_of(old).subset_of(names_of(new))
}

impl MirBuilderContext {
    /// Lowers the statements of a block and gives the block's value.
    fn lower_block(&mut self, block: &HirBlock, expected_ty: Option<&Type>, intrinsics: &mut Vec<String>) -> (r: MirRvalue)
        requires
            old(self).wf(),
            block_lowerable(*block, old(self).loop_stack@.len() > 0),
            string_views(old(intrinsics)@).no_duplicates(),
        ensures
            final(self).wf(),
            MirBuilderContext::grows(*final(self), *old(self)),
            block_value(r, *block),
            names_grow(final(intrinsics)@, old(intrinsics)@),
            block_calls_in(*block, names_of(final(intrinsics)@)),
            flat_lets(block.stmts@) ==> ({
                let cur = old(self).current_block as int;
                let n0 = old(self).blocks@[cur].stmts@.len();
                &&& final(self).current_block == old(self).current_block
                &&& final(self).blocks@.len() == old(self).blocks@.len()
                &&& final(self).locals@.len() == old(self).locals@.len() + block.stmts@.len()
                &&& final(self).blocks@[cur].stmts@.len() == n0 + block.stmts@.len()
                &&& final(self).blocks@[cur].stmts@.take(n0 as int) == old(self).blocks@[cur].stmts@
                &&& forall|j: int| 0 <= j < block.stmts@.len() ==> let_lowered(#[trigger] final(self).blocks@[cur].stmts@[n0 + j],
                    block.stmts@[j], old(self).locals@.len() + j)
            }),
        decreases block,
    {
        let ghost cur0 = old(self).current_block as int;
        let ghost n0 = old(self).blocks@[cur0].stmts@.len();
        let len = block.stmts.len();
        if len == 0 {
            return MirRvalue::Unit;
        }
        let mut i: usize = 0;
        while i < len
            invariant
                self.wf(),
                MirBuilderContext::grows(*self, *old(self)),
                len == block.stmts@.len(),
                i < len,
                block_lowerable(*block, self.loop_stack@.len() > 0),
                names_grow(intrinsics@, old(intrinsics)@),
                forall|j: int| 0 <= j < i ==> stmt_calls_in(#[trigger] block.stmts@[j], names_of(intrinsics@)),
                flat_lets(block.stmts@) ==> ({
                    &&& self.current_block == old(self).current_block
                    &&& self.blocks@.len() == old(self).blocks@.len()
                    &&& self.locals@.len() == old(self).locals@.len() + i
                    &&& self.blocks@[cur0].stmts@.len() == n0 + i
                    &&& self.blocks@[cur0].stmts@.take(n0 as int) == old(self).blocks@[cur0].stmts@
                    &&& forall|j: int| 0 <= j < i ==> let_lowered(#[trigger] self.blocks@[cur0].stmts@[n0 + j],
                        block.stmts@[j], old(self).locals@.len() + j)
                }),
                cur0 == old(self).current_block,
                n0 == old(self).blocks@[cur0].stmts@.len(),
            decreases len - i,
        {
            proof {
                assert(decreases_to!(block.stmts => block.stmts[i as int]));
            }
            let ghost names_before = names_of(intrinsics@);
            let stmt = &block.stmts[i];
            assert(stmt_lowerable(*stmt, self.loop_stack@.len() > 0));
            if i == len - 1 {
                match stmt {
                    HirStmt::Expr { expr, .. } => {
                        let rv = self.lower_expr(expr, intrinsics);
                        proof {
                            assert forall|j: int| 0 <= j < len implies stmt_calls_in(#[trigger] block.stmts@[j], names_of(intrinsics@)) by {
                                if j < i {
                                    lemma_stmt_calls_grow(block.stmts@[j], names_before, names_of(intrinsics@));
                                }
                            }
                        }
                        return rv;
                    },
                    _ => {
                        self.lower_stmt(stmt, intrinsics);
                        proof {
                            assert forall|j: int| 0 <= j < len implies stmt_calls_in(#[trigger] block.stmts@[j], names_of(intrinsics@)) by {
                                if j < i {
                                    lemma_stmt_calls_grow(block.stmts@[j], names_before, names_of(intrinsics@));
                                }
                            }
                        }
                        return MirRvalue::Unit;
                    },
                }
            } else {
                self.lower_stmt(stmt, intrinsics);
                proof {
                    assert forall|j: int| 0 <= j < i + 1 implies stmt_calls_in(#[trigger] block.stmts@[j], names_of(intrinsics@)) by {
                        if j < i {
                            lemma_stmt_calls_grow(block.stmts@[j], names_before, names_of(intrinsics@));
                        }
                    }
                }
            }
            i += 1;
        }
        MirRvalue::Unit
    }

    /// Lowers a statement into the current block, opening new blocks for control flow:
    /// `return` closes the block, a `while` loop gets a condition, a body and an exit block,
    /// `loop` a body and an exit block, and `break` jumps to the exit of the innermost loop.
    fn lower_stmt(&mut self, stmt: &HirStmt, intrinsics: &mut Vec<String>)
        requires
            old(self).wf(),
            stmt_lowerable(*stmt, old(self).loop_stack@.len() > 0),
            string_views(old(intrinsics)@).no_duplicates(),
        ensures
            final(self).wf(),
            MirBuilderContext::grows(*final(self), *old(self)),
            names_grow(final(intrinsics)@, old(intrinsics)@),
            stmt_calls_in(*stmt, names_of(final(intrinsics)@)),
            *stmt matches HirStmt::Let { name, mutable, persist, .. } ==> ({
                let l = final(self).locals@.last();
                &&& final(self).locals@.len() > old(self).locals@.len()
                &&& l.name matches Some(n) && n@ == name@
                &&& l.mutability == mutable
                &&& l.persist == persist
            }),
            *stmt matches HirStmt::Let { init, .. } ==> (flat_expr(init) ==> ({
                let cur = old(self).current_block as int;
                &&& final(self).current_block == old(self).current_block
                &&& final(self).locals@.len() == old(self).locals@.len() + 1
                &&& final(self).blocks@.len() == old(self).blocks@.len()
                &&& final(self).blocks@[cur].terminator == old(self).blocks@[cur].terminator
                &&& final(self).blocks@[cur].stmts@ == old(self).blocks@[cur].stmts@.push(final(self).blocks@[cur].stmts@.last())
                &&& final(self).blocks@[cur].stmts@.last() matches MirStmt::Assign { place, rvalue }
                    && place == MirPlace::Local(old(self).locals@.len() as usize) && rvalue_of(rvalue, init)
            })),
            *stmt is While ==> ({
                let b = old(self).blocks@.len() as int;
                &&& final(self).blocks@.len() >= b + 3
                &&& final(self).blocks@[old(self).current_block as int].terminator == MirTerminator::Goto(b as usize)
                &&& exists|c: int| (c == b || b + 3 <= c) && c < final(self).blocks@.len()
                    && ((#[trigger] final(self).blocks@[c]).terminator matches MirTerminator::If { then_block, else_block, .. }
                    && then_block == b + 1 && else_block == b + 2)
                &&& final(self).current_block == b + 2
                &&& final(self).loop_stack@ == old(self).loop_stack@
            }),
            *stmt matches HirStmt::While { cond, .. } ==> (flat_expr(cond) ==> ({
                let b = old(self).blocks@.len() as int;
                final(self).blocks@[b].terminator matches MirTerminator::If { cond: c, then_block, else_block }
                    && rvalue_of(c, cond) && then_block == b + 1 && else_block == b + 2
            })),
            *stmt is Loop ==> ({
                let b = old(self).blocks@.len() as int;
                &&& final(self).blocks@.len() >= b + 2
                &&& final(self).blocks@[old(self).current_block as int].terminator == MirTerminator::Goto(b as usize)
                &&& final(self).current_block == b + 1
            }),
            *stmt is Break && old(self).loop_stack@.len() > 0 ==> ({
                &&& final(self).blocks@[old(self).current_block as int].terminator
                    == MirTerminator::Goto(old(self).loop_stack@.last().break_block)
                &&& final(self).current_block == old(self).blocks@.len()
            }),
            *stmt matches HirStmt::Return { expr: None, .. } ==> ({
                &&& final(self).blocks@[old(self).current_block as int].terminator == MirTerminator::Return(None)
                &&& final(self).current_block == old(self).blocks@.len()
            }),
            *stmt matches HirStmt::Return { expr: Some(_), .. } ==> ({
                &&& exists|c: int| (c == old(self).current_block || old(self).blocks@.len() <= c) && c < final(self).blocks@.len()
                    && ((#[trigger] final(self).blocks@[c]).terminator matches MirTerminator::Return(Some(_)))
                &&& final(self).current_block == final(self).blocks@.len() - 1
            }),
        decreases stmt,
    {
        match stmt {
            HirStmt::Let { name, ty, init, mutable, persist, .. } => {
                let init_rv = self.lower_expr(init, intrinsics);
                let var_ty = match ty {
                    Some(t) => copy_type(t),
                    None => copy_type(&init.ty),
                };
                let id = self.locals.len();
                self.locals.push(MirLocal { ty: var_ty, mutability: *mutable, persist: *persist, name: Some(name.clone()) });
                self.add_stmt(MirStmt::Assign { place: MirPlace::Local(id), rvalue: init_rv });
            },
            HirStmt::Expr { expr, .. } => {
                let _ = self.lower_expr(expr, intrinsics);
            },
            HirStmt::Return { expr, .. } => {
                match expr {
                    Some(e) => {
                        let rv = self.lower_expr(e, intrinsics);
                        let ghost c = self.current_block as int;
                        self.set_terminator(MirTerminator::Return(Some(rv)));
                        let next_block = self.new_block("after_return");
                        self.set_current_block(next_block);
                        assert(self.blocks@[c].terminator matches MirTerminator::Return(Some(_)));
                        return;
                    },
                    None => {
                        self.set_terminator(MirTerminator::Return(None));
                    },
                }
                let next_block = self.new_block("after_return");
                self.set_current_block(next_block);
            },
            HirStmt::While { cond, body, .. } => {
                let cond_block = self.new_block("while_cond");
                let body_block = self.new_block("while_body");
                let end_block = self.new_block("while_end");
                self.loop_stack.push(LoopContext { break_block: end_block, continue_block: cond_block });
                self.set_terminator(MirTerminator::Goto(cond_block));
                self.set_current_block(cond_block);
                let cond_rv = self.lower_expr(cond, intrinsics);
                let ghost names_before = names_of(intrinsics@);
                let ghost c = self.current_block as int;
                self.set_terminator(MirTerminator::If { cond: cond_rv, then_block: body_block, else_block: end_block });
                self.set_current_block(body_block);
                let _ = self.lower_block(body, None, intrinsics);
                proof {
                    lemma_expr_calls_grow(*cond, names_before, names_of(intrinsics@));
                }
                if !self.current_returns() {
                    self.set_terminator(MirTerminator::Goto(cond_block));
                }
                let _ = self.loop_stack.pop();
                assert(self.loop_stack@ =~= old(self).loop_stack@);
                self.set_current_block(end_block);
                assert(self.blocks@[c].terminator matches MirTerminator::If { then_block, else_block, .. }
                    && then_block == body_block && else_block == end_block);
                assert(flat_expr(*cond) ==> c == cond_block);
            },
            HirStmt::For { .. } => {
                // not reached: `stmt_lowerable` leaves `for` loops out
            },
            HirStmt::Assign { .. } => {
                // not reached: `stmt_lowerable` leaves assignments out
            },
            HirStmt::Loop { body, .. } => {
                let body_block = self.new_block("loop_body");
                let end_block = self.new_block("loop_end");
                self.loop_stack.push(LoopContext { break_block: end_block, continue_block: body_block });
                self.set_terminator(MirTerminator::Goto(body_block));
                self.set_current_block(body_block);
                let _ = self.lower_block(body, None, intrinsics);
                if !self.current_returns() {
                    self.set_terminator(MirTerminator::Goto(body_block));
                }
                let _ = self.loop_stack.pop();
                assert(self.loop_stack@ =~= old(self).loop_stack@);
                self.set_current_block(end_block);
            },
            HirStmt::Break { .. } => {
                let n = self.loop_stack.len();
                if n > 0 {
                    let target = self.loop_stack[n - 1].break_block;
                    self.set_terminator(MirTerminator::Goto(target));
                    let unreachable = self.new_block("after_break");
                    self.set_current_block(unreachable);
                }
            },
            HirStmt::UnsafeBlock { body, .. } => {
                self.add_stmt(MirStmt::EffectCheck { effect: "unsafe".to_string() });
                let _ = self.lower_block(body, None, intrinsics);
            },
        }
    }

    /// Lowers an expression to a value; a call is listed in `intrinsics` under its name.
    fn lower_expr(&mut self, expr: &HirExpr, intrinsics: &mut Vec<String>) -> (r: MirRvalue)
        requires
            old(self).wf(),
            expr_lowerable(*expr, old(self).loop_stack@.len() > 0),
            string_views(old(intrinsics)@).no_duplicates(),
        ensures
            final(self).wf(),
            MirBuilderContext::grows(*final(self), *old(self)),
            rvalue_of(r, *expr),
            names_grow(final(intrinsics)@, old(intrinsics)@),
            expr_calls_in(*expr, names_of(final(intrinsics)@)),
            flat_expr(*expr) ==> *final(self) == *old(self),
        decreases expr,
    {
        match &expr.kind {
            HirExprKind::Literal(lit) => MirRvalue::Literal(copy_literal(lit)),
            HirExprKind::BinaryOp { op, left, right } => {
                let l = self.lower_expr(left, intrinsics);
                let ghost names_mid = names_of(intrinsics@);
                let r = self.lower_expr(right, intrinsics);
                proof {
                    lemma_expr_calls_grow(**left, names_mid, names_of(intrinsics@));
                }
                MirRvalue::BinaryOp { op: *op, left: Box::new(l), right: Box::new(r) }
            },
            HirExprKind::Call { qualifier, func, generic_args, args, .. } => {
                match qualifier {
                    Some(q) => {
                        let mut key = String::new();
                        push_str(&mut key, q.as_str());
                        push_str(&mut key, "::");
                        push_str(&mut key, func.as_str());
                        note_call(intrinsics, key);
                    },
                    None => {
                        note_call(intrinsics, func.clone());
                    },
                }
                let ghost names_at_call = names_of(intrinsics@);
                let mut mir_args: Vec<MirRvalue> = Vec::new();
                let mut k: usize = 0;
                while k < args.len()
                    invariant
                        self.wf(),
                        MirBuilderContext::grows(*self, *old(self)),
                        k <= args@.len(),
                        mir_args@.len() == k,
                        expr_lowerable(*expr, self.loop_stack@.len() > 0),
                        expr.kind matches HirExprKind::Call { args: a, .. } && a == args,
                        names_grow(intrinsics@, old(intrinsics)@),
                        names_at_call.subset_of(names_of(intrinsics@)),
                        names_at_call.contains(call_key(*qualifier, *func)),
                        forall|j: int| 0 <= j < k ==> match #[trigger] args@[j] {
                            HirCallArg::Positional(x) => rvalue_of(mir_args@[j], x) && expr_calls_in(x, names_of(intrinsics@)),
                            HirCallArg::Named(_, x) => rvalue_of(mir_args@[j], x) && expr_calls_in(x, names_of(intrinsics@)),
                        },
                    decreases args.len() - k,
                {
                    proof {
                        assert(decreases_to!(args => args[k as int]));
                    }
                    let ghost names_before = names_of(intrinsics@);
                    let ghost done = mir_args@;
                    let rv = match &args[k] {
                        HirCallArg::Positional(e) => self.lower_expr(e, intrinsics),
                        HirCallArg::Named(_, e) => self.lower_expr(e, intrinsics),
                    };
                    mir_args.push(rv);
                    proof {
                        assert forall|j: int| 0 <= j < k implies match #[trigger] args@[j] {
                            HirCallArg::Positional(x) => rvalue_of(mir_args@[j], x) && expr_calls_in(x, names_of(intrinsics@)),
                            HirCallArg::Named(_, x) => rvalue_of(mir_args@[j], x) && expr_calls_in(x, names_of(intrinsics@)),
                        } by {
                            assert(mir_args@[j] == done[j]);
                            match args@[j] {
                                HirCallArg::Positional(x) => lemma_expr_calls_grow(x, names_before, names_of(intrinsics@)),
                                HirCallArg::Named(_, x) => lemma_expr_calls_grow(x, names_before, names_of(intrinsics@)),
                            }
                        }
                    }
                    k += 1;
                }
                MirRvalue::IntrinsicCall { func: func.clone(), args: mir_args, generic_args: copy_types(generic_args) }
            },
            HirExprKind::StructInit { struct_name, fields, .. } => {
                let mut mir_fields: Vec<(String, MirRvalue)> = Vec::new();
                let mut k: usize = 0;
                while k < fields.len()
                    invariant
                        self.wf(),
                        MirBuilderContext::grows(*self, *old(self)),
                        k <= fields@.len(),
                        mir_fields@.len() == k,
                        expr_lowerable(*expr, self.loop_stack@.len() > 0),
                        expr.kind matches HirExprKind::StructInit { fields: f, .. } && f == fields,
                        names_grow(intrinsics@, old(intrinsics)@),
                        forall|j: int| 0 <= j < k ==> mir_fields@[j].0@ == (#[trigger] fields@[j]).0@
                            && rvalue_of(mir_fields@[j].1, fields@[j].1)
                            && expr_calls_in(fields@[j].1, names_of(intrinsics@)),
                    decreases fields.len() - k,
                {
                    proof {
                        assert(decreases_to!(fields => fields[k as int]));
                    }
                    let ghost names_before = names_of(intrinsics@);
                    let ghost done = mir_fields@;
                    let rv = self.lower_expr(&fields[k].1, intrinsics);
                    mir_fields.push((fields[k].0.clone(), rv));
                    proof {
                        assert forall|j: int| 0 <= j < k implies mir_fields@[j].0@ == (#[trigger] fields@[j]).0@
                            && rvalue_of(mir_fields@[j].1, fields@[j].1)
                            && expr_calls_in(fields@[j].1, names_of(intrinsics@)) by {
                            assert(mir_fields@[j] == done[j]);
                            lemma_expr_calls_grow(fields@[j].1, names_before, names_of(intrinsics@));
                        }
                    }
                    k += 1;
                }
                MirRvalue::StructInit { struct_name: struct_name.clone(), fields: mir_fields }
            },
            HirExprKind::Block(b) => self.lower_block(b, None, intrinsics),
            _ => {
                // not reached: `expr_lowerable` leaves other expressions out
                MirRvalue::Unit
            },
        }
    }
}


proof fn lemma_block_calls_grow(b: HirBlock, x: Set<Seq<char>>, y: Set<Seq<char>>)
    requires
        block_calls_in(b, x),
        x.subset_of(y),
    ensures
        block_calls_in(b, y),
{
    assert forall|k: int| 0 <= k < b.stmts@.len() implies stmt_calls_in(#[trigger] b.stmts@[k], y) by {
        lemma_stmt_calls_grow(b.stmts@[k], x, y);
    }
}

/// `m` is `f` lowered: the same name, generic parameter names, arguments (names and
/// types), return type and effects, no source positions, and at least one block, every
/// block ending in a `return`.
pub open spec fn lowered_from(m: MirFunction, f: HirFn) -> bool {
    &&& m.name@ == f.name@
    &&& m.generic_params@.len() == f.generic_params@.len()
    &&& forall|k: int| 0 <= k < f.generic_params@.len() ==> (#[trigger] m.generic_params@[k])@ == f.generic_params@[k].name@
    &&& m.args@.len() == f.params@.len()
    &&& forall|k: int| 0 <= k < f.params@.len() ==> (#[trigger] m.args@[k]).name@ == f.params@[k].name@
        && type_same(m.args@[k].ty, f.params@[k].ty)
    &&& opt_type_same(m.return_ty, f.return_type)
    &&& m.effect_set == f.effects
    &&& m.source_map@ == Map::<BasicBlockId, Span>::empty()
    &&& m.blocks@.len() >= 1
    &&& forall|i: int| 0 <= i < m.blocks@.len() ==> ends_in_return(#[trigger] m.blocks@[i])
}

/// Lowers one function; the calls in it are listed in `intrinsics`.
fn build_function(f: &HirFn, intrinsics: &mut Vec<String>) -> (r: MirFunction)
    requires
        block_lowerable(f.body, false),
        string_views(old(intrinsics)@).no_duplicates(),
    ensures
        lowered_from(r, *f),
        flat_body_lowered(r, *f),
        names_grow(final(intrinsics)@, old(intrinsics)@),
        block_calls_in(f.body, names_of(final(intrinsics)@)),
{
    let mut ctx = MirBuilderContext::new(f);
    let start_block = ctx.new_block("start");
    ctx.set_current_block(start_block);
    let mut k: usize = 0;
    while k < f.params.len()
        invariant
            ctx.wf(),
            ctx.loop_stack@.len() == 0,
            ctx.blocks@.len() == 1,
            ctx.blocks@[0].stmts@.len() == 0,
            ctx.current_block == 0,
            ctx.locals@.len() == 0,
            k <= f.params@.len(),
            ctx.args@.len() == k,
            forall|j: int| 0 <= j < k ==> (#[trigger] ctx.args@[j]).name@ == f.params@[j].name@
                && type_same(ctx.args@[j].ty, f.params@[j].ty),
        decreases f.params.len() - k,
    {
        let _ = ctx.add_arg(f.params[k].name.as_str(), copy_type(&f.params[k].ty));
        k += 1;
    }
    let return_ty = copy_opt_type(&f.return_type);
    assert(ctx.blocks@[0].stmts@.len() == 0);
    let _ = ctx.lower_block(&f.body, return_ty.as_ref(), intrinsics);
    let ghost pre = ctx.blocks@;
    ctx.finalize();
    proof {
        if flat_lets(f.body.stmts@) {
            assert(ctx.blocks@[0].stmts == pre[0].stmts);
            assert forall|j: int| 0 <= j < f.body.stmts@.len() implies let_lowered(#[trigger] ctx.blocks@[0].stmts@[j], f.body.stmts@[j], j) by {
                assert(pre[0].stmts@[0 + j] == ctx.blocks@[0].stmts@[j]);
            }
        }
    }
    let mut generic_params: Vec<String> = Vec::new();
    let mut k: usize = 0;
    while k < f.generic_params.len()
        invariant
            k <= f.generic_params@.len(),
            generic_params@.len() == k,
            forall|j: int| 0 <= j < k ==> (#[trigger] generic_params@[j])@ == f.generic_params@[j].name@,
        decreases f.generic_params.len() - k,
    {
        generic_params.push(f.generic_params[k].name.clone());
        k += 1;
    }
    MirFunction {
        name: f.name.clone(),
        generic_params,
        args: ctx.args,
        return_ty,
        locals: ctx.locals,
        blocks: ctx.blocks,
        source_map: HashMap::new(),
        effect_set: f.effects,
    }
}

/// The lowering of checked programs to MIR.
pub struct MirBuilder;

impl MirBuilder {
    /// Lowers the free functions of a program, then the functions of each model, in order,
    /// and lists the names of the calls they make, each once.
    pub fn build(program: &HirProgram) -> (r: MirProgram)
        requires
            program_lowerable(*program),
        ensures
            r.functions@.len() == lowered_fns(*program).len(),
            forall|i: int| 0 <= i < r.functions@.len() ==> lowered_from(#[trigger] r.functions@[i], lowered_fns(*program)[i]),
            forall|i: int| 0 <= i < r.functions@.len() ==> flat_body_lowered(#[trigger] r.functions@[i], lowered_fns(*program)[i]),
            string_views(r.intrinsics_used@).no_duplicates(),
            forall|i: int| 0 <= i < lowered_fns(*program).len()
                ==> block_calls_in(#[trigger] lowered_fns(*program)[i].body, names_of(r.intrinsics_used@)),
    {
        let ghost all = lowered_fns(*program);
        let mut functions: Vec<MirFunction> = Vec::new();
        let mut intrinsics: Vec<String> = Vec::new();
        let mut k: usize = 0;
        while k < program.fns.len()
            invariant
                all == lowered_fns(*program),
                program_lowerable(*program),
                k <= program.fns@.len(),
                functions@.len() == k,
                string_views(intrinsics@).no_duplicates(),
                forall|i: int| 0 <= i < k ==> lowered_from(#[trigger] functions@[i], all[i]),
                forall|i: int| 0 <= i < k ==> flat_body_lowered(#[trigger] functions@[i], all[i]),
                forall|i: int| 0 <= i < k ==> block_calls_in(#[trigger] all[i].body, names_of(intrinsics@)),
            decreases program.fns.len() - k,
        {
            assert(all[k as int] == program.fns@[k as int]);
            let ghost before = names_of(intrinsics@);
            let mir_fn = build_function(&program.fns[k], &mut intrinsics);
            proof {
                assert forall|i: int| 0 <= i < k implies block_calls_in(#[trigger] all[i].body, names_of(intrinsics@)) by {
                    lemma_block_calls_grow(all[i].body, before, names_of(intrinsics@));
                }
            }
            functions.push(mir_fn);
            k += 1;
        }
        let nf = program.fns.len();
        let mut m: usize = 0;
        while m < program.models.len()
            invariant
                all == lowered_fns(*program),
                program_lowerable(*program),
                nf == program.fns@.len(),
                m <= program.models@.len(),
                functions@.len() == nf + model_fns(program.models@.take(m as int)).len(),
                string_views(intrinsics@).no_duplicates(),
                forall|i: int| 0 <= i < functions@.len() ==> lowered_from(#[trigger] functions@[i], all[i]),
                forall|i: int| 0 <= i < functions@.len() ==> flat_body_lowered(#[trigger] functions@[i], all[i]),
                forall|i: int| 0 <= i < functions@.len() ==> block_calls_in(#[trigger] all[i].body, names_of(intrinsics@)),
            decreases program.models.len() - m,
        {
            let model = &program.models[m];
            proof {
                lemma_model_fns_prefix(program.models@, m as int + 1);
                assert(program.models@.take(m as int + 1).drop_last() =~= program.models@.take(m as int));
            }
            let base = functions.len();
            let mut j: usize = 0;
            while j < model.functions.len()
                invariant
                    all == lowered_fns(*program),
                    program_lowerable(*program),
                    model == program.models@[m as int],
                    m < program.models@.len(),
                    nf == program.fns@.len(),
                    base == nf + model_fns(program.models@.take(m as int)).len(),
                    model_fns(program.models@.take(m as int + 1)) == model_fns(program.models@.take(m as int)) + model.functions@,
                    all.len() >= base + model.functions@.len(),
                    forall|q: int| 0 <= q < model.functions@.len() ==> #[trigger] all[base + q] == model.functions@[q],
                    j <= model.functions@.len(),
                    functions@.len() == base + j,
                    string_views(intrinsics@).no_duplicates(),
                    forall|i: int| 0 <= i < functions@.len() ==> lowered_from(#[trigger] functions@[i], all[i]),
                    forall|i: int| 0 <= i < functions@.len() ==> flat_body_lowered(#[trigger] functions@[i], all[i]),
                    forall|i: int| 0 <= i < functions@.len() ==> block_calls_in(#[trigger] all[i].body, names_of(intrinsics@)),
                decreases model.functions.len() - j,
            {
                assert(all[base + j] == model.functions@[j as int]);
                let ghost before = names_of(intrinsics@);
                let mir_fn = build_function(&model.functions[j], &mut intrinsics);
                proof {
                    assert forall|i: int| 0 <= i < base + j implies block_calls_in(#[trigger] all[i].body, names_of(intrinsics@)) by {
                        lemma_block_calls_grow(all[i].body, before, names_of(intrinsics@));
                    }
                }
                functions.push(mir_fn);
                j += 1;
            }
            m += 1;
        }
        assert(program.models@.take(program.models@.len() as int) =~= program.models@);
        MirProgram { functions, intrinsics_used: intrinsics }
    }
}

/// The functions of the first `n` models come first among those of all models.
proof fn lemma_model_fns_prefix(models: Seq<HirModel>, n: int)
    requires
        0 <= n <= models.len(),
    ensures
        model_fns(models.take(n)).len() <= model_fns(models).len(),
        forall|i: int| 0 <= i < model_fns(models.take(n)).len() ==> #[trigger] model_fns(models)[i] == model_fns(models.take(n))[i],
    decreases models.len(),
{
    if n < models.len() {
        assert(models.drop_last().take(n) =~= models.take(n));
        lemma_model_fns_prefix(models.drop_last(), n);
    } else {
        assert(models.take(n) =~= models);
    }
}


#[verifier::loop_isolation(false)]
fn expr_can_lower(e: &HirExpr, in_loop: bool) -> (r: bool)
    ensures
        r == expr_lowerable(*e, in_loop),
    decreases e,
{
    match &e.kind {
        HirExprKind::Literal(_) => true,
        HirExprKind::BinaryOp { left, right, .. } => expr_can_lower(left, in_loop) && expr_can_lower(right, in_loop),
        HirExprKind::Call { args, .. } => {
            let mut k: usize = 0;
            while k < args.len()
                invariant
                    k <= args@.len(),
                    forall|j: int| 0 <= j < k ==> match #[trigger] args@[j] {
                        HirCallArg::Positional(x) => expr_lowerable(x, in_loop),
                        HirCallArg::Named(_, x) => expr_lowerable(x, in_loop),
                    },
                decreases args.len() - k,
            {
                proof {
                    assert(decreases_to!(args => args[k as int]));
                }
                let ok = match &args[k] {
                    HirCallArg::Positional(x) => expr_can_lower(x, in_loop),
                    HirCallArg::Named(_, x) => expr_can_lower(x, in_loop),
                };
                if !ok {
                    return false;
                }
                k += 1;
            }
            true
        },
        HirExprKind::StructInit { fields, .. } => {
            let mut k: usize = 0;
            while k < fields.len()
                invariant
                    k <= fields@.len(),
                    forall|j: int| 0 <= j < k ==> expr_lowerable(#[trigger] fields@[j].1, in_loop),
                decreases fields.len() - k,
            {
                proof {
                    assert(decreases_to!(fields => fields[k as int]));
                }
                if !expr_can_lower(&fields[k].1, in_loop) {
                    return false;
                }
                k += 1;
            }
            true
        },
        HirExprKind::Block(b) => block_can_lower(b, in_loop),
        _ => false,
    }
}

fn block_can_lower(b: &HirBlock, in_loop: bool) -> (r: bool)
    ensures
        r == block_lowerable(*b, in_loop),
    decreases b,
{
    let mut k: usize = 0;
    while k < b.stmts.len()
        invariant
            k <= b.stmts@.len(),
            forall|j: int| 0 <= j < k ==> stmt_lowerable(#[trigger] b.stmts@[j], in_loop),
        decreases b.stmts.len() - k,
    {
        proof {
            assert(decreases_to!(b.stmts => b.stmts[k as int]));
        }
        if !stmt_can_lower(&b.stmts[k], in_loop) {
            return false;
        }
        k += 1;
    }
    true
}

fn stmt_can_lower(s: &HirStmt, in_loop: bool) -> (r: bool)
    ensures
        r == stmt_lowerable(*s, in_loop),
    decreases s,
{
    match s {
        HirStmt::Let { init, .. } => expr_can_lower(init, in_loop),
        HirStmt::Expr { expr, .. } => expr_can_lower(expr, in_loop),
        HirStmt::Return { expr, .. } => match expr {
            Some(e) => expr_can_lower(e, in_loop),
            None => true,
        },
        HirStmt::While { cond, body, .. } => expr_can_lower(cond, true) && block_can_lower(body, true),
        HirStmt::For { .. } => false,
        HirStmt::Assign { .. } => false,
        HirStmt::Loop { body, .. } => block_can_lower(body, true),
        HirStmt::Break { .. } => in_loop,
        HirStmt::UnsafeBlock { body, .. } => block_can_lower(body, in_loop),
    }
}

impl MirBuilder {
    /// Whether [`MirBuilder::build`] can lower the program: every function body is made of
    /// what [`stmt_lowerable`] admits.
    pub fn can_build(program: &HirProgram) -> (r: bool)
        ensures
            r == program_lowerable(*program),
    {
        let ghost all = lowered_fns(*program);
        let mut k: usize = 0;
        while k < program.fns.len()
            invariant
                all == lowered_fns(*program),
                k <= program.fns@.len(),
                forall|i: int| 0 <= i < k ==> block_lowerable(#[trigger] all[i].body, false),
            decreases program.fns.len() - k,
        {
            assert(all[k as int] == program.fns@[k as int]);
            if !block_can_lower(&program.fns[k].body, false) {
                return false;
            }
            k += 1;
        }
        let nf = program.fns.len();
        let mut m: usize = 0;
        while m < program.models.len()
            invariant
                all == lowered_fns(*program),
                nf == program.fns@.len(),
                m <= program.models@.len(),
                nf + model_fns(program.models@.take(m as int)).len() <= all.len(),
                forall|i: int| 0 <= i < nf + model_fns(program.models@.take(m as int)).len()
                    ==> block_lowerable(#[trigger] all[i].body, false),
            decreases program.models.len() - m,
        {
            let model = &program.models[m];
            proof {
                lemma_model_fns_prefix(program.models@, m as int + 1);
                assert(program.models@.take(m as int + 1).drop_last() =~= program.models@.take(m as int));
            }
            let ghost base = nf + model_fns(program.models@.take(m as int)).len();
            let mut j: usize = 0;
            while j < model.functions.len()
                invariant
                    all == lowered_fns(*program),
                    model == program.models@[m as int],
                    m < program.models@.len(),
                    base == nf + model_fns(program.models@.take(m as int)).len(),
                    model_fns(program.models@.take(m as int + 1)) == model_fns(program.models@.take(m as int)) + model.functions@,
                    all.len() >= base + model.functions@.len(),
                    forall|q: int| 0 <= q < model.functions@.len() ==> #[trigger] all[base + q] == model.functions@[q],
                    j <= model.functions@.len(),
                    forall|i: int| 0 <= i < base + j ==> block_lowerable(#[trigger] all[i].body, false),
                decreases model.functions.len() - j,
            {
                assert(all[base + j] == model.functions@[j as int]);
                if !block_can_lower(&model.functions[j].body, false) {
                    return false;
                }
                j += 1;
            }
            m += 1;
        }
        assert(program.models@.take(program.models@.len() as int) =~= program.models@);
        true
    }
}

} // verus!
