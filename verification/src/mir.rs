//! The mid-level IR: functions as basic blocks of statements, each block closed by a
//! terminator.
use vstd::prelude::*;
use std::collections::HashMap;
use crate::ast::{
    Type, Literal, BinaryOp, UnaryOp, type_same, opt_type_same, opt_text_same, literal_same, copy_type,
    copy_opt_type, copy_literal,
};
use crate::text::string_views;
use crate::hir::{EffectSet, Span};

verus! {

pub type BasicBlockId = usize;

pub type LocalVarId = usize;

pub type ArgId = usize;

/// A lowered program, with the names of the built-in functions that it calls.
#[derive(Debug)]
pub struct MirProgram {
    pub functions: Vec<MirFunction>,
    pub intrinsics_used: Vec<String>,
}

/// A lowered function.
#[derive(Debug)]
pub struct MirFunction {
    pub name: String,
    pub generic_params: Vec<String>,
    pub args: Vec<MirArg>,
    pub return_ty: Option<Type>,
    pub locals: Vec<MirLocal>,
    pub blocks: Vec<MirBasicBlock>,
    pub source_map: HashMap<BasicBlockId, Span>,
    pub effect_set: EffectSet,
}

/// A parameter of a lowered function.
#[derive(Debug)]
pub struct MirArg {
    pub name: String,
    pub ty: Type,
}

/// A local variable; compiler temporaries have no name.
#[derive(Debug)]
pub struct MirLocal {
    pub ty: Type,
    pub mutability: bool,
    pub persist: bool,
    pub name: Option<String>,
}

/// A straight run of statements closed by a terminator.
#[derive(Debug)]
pub struct MirBasicBlock {
    pub stmts: Vec<MirStmt>,
    pub terminator: MirTerminator,
}

/// A statement, which does not change the flow of control.
#[derive(Debug)]
pub enum MirStmt {
    Assign { place: MirPlace, rvalue: MirRvalue },
    Drop { place: MirPlace },
    SetMetadata { place: MirPlace, key: String, value: String },
    EffectCheck { effect: String },
}

/// How a basic block hands on control.
#[derive(Debug)]
pub enum MirTerminator {
    Return(Option<MirRvalue>),
    Goto(BasicBlockId),
    If { cond: MirRvalue, then_block: BasicBlockId, else_block: BasicBlockId },
    Call {
        func: String,
        args: Vec<MirRvalue>,
        destination: MirPlace,
        target_block: BasicBlockId,
        is_method: bool,
        generic_args: Vec<Type>,
    },
    BuiltinCallNoReturn { func: String, args: Vec<MirRvalue> },
    Switch { discr: MirRvalue, targets: Vec<(i64, BasicBlockId)>, default: BasicBlockId },
}

/// A place that can be written: a local, an argument, a static, or a part of another place.
#[derive(Debug)]
pub enum MirPlace {
    Local(LocalVarId),
    Arg(ArgId),
    Static(String),
    Field { base: Box<MirPlace>, field_name: String, field_ty: Type },
    Index { base: Box<MirPlace>, index: Box<MirRvalue> },
    Deref { base: Box<MirPlace> },
}

/// A value that is only read.
#[derive(Debug)]
pub enum MirRvalue {
    Literal(Literal),
    ConstArray(Vec<MirRvalue>),
    Move(MirPlace),
    Copy(MirPlace),
    BinaryOp { op: BinaryOp, left: Box<MirRvalue>, right: Box<MirRvalue> },
    UnaryOp { op: UnaryOp, operand: Box<MirRvalue> },
    Cast { operand: Box<MirRvalue>, target_ty: Type },
    Closure { captures: Vec<MirPlace>, body: Box<MirProgram> },
    StructInit { struct_name: String, fields: Vec<(String, MirRvalue)> },
    EnumVariantConstruction { enum_name: String, variant_name: String, args: Vec<MirRvalue> },
    IntrinsicCall { func: String, args: Vec<MirRvalue>, generic_args: Vec<Type> },
    Unit,
}

/// A place whose type can be read off it: the type of a local or an argument is kept in the
/// function, not in the place.
pub open spec fn place_type_known(p: MirPlace) -> bool
    decreases p,
{
    match p {
        MirPlace::Local(_) => false,
        MirPlace::Arg(_) => false,
        MirPlace::Deref { base } => place_type_known(*base),
        _ => true,
    }
}

/// `t` is the type that [`MirPlace::ty`] gives for `p`: a field's recorded type, `i32` for a
/// static or an element, and through a dereference the type of the base.
pub open spec fn place_type_is(p: MirPlace, t: Type) -> bool
    decreases p,
{
    match p {
        MirPlace::Static(_) => t == Type::I32,
        MirPlace::Field { field_ty, .. } => type_same(t, field_ty),
        MirPlace::Index { .. } => t == Type::I32,
        MirPlace::Deref { base } => place_type_is(*base, t),
        _ => false,
    }
}

impl MirPlace {
    /// The type of the place, as far as the place itself records it.
    pub fn ty(&self) -> (r: Type)
        requires
            place_type_known(*self),
        ensures
            place_type_is(*self, r),
        decreases self,
    {
        match self {
            MirPlace::Static(_) => Type::I32,
            MirPlace::Field { field_ty, .. } => copy_type(field_ty),
            MirPlace::Index { .. } => Type::I32,
            MirPlace::Deref { base } => base.ty(),
            MirPlace::Local(_) | MirPlace::Arg(_) => {
                // not reached: the precondition leaves these places out
                Type::I32
            },
        }
    }
}


// ===== copies =====

/// Two places of the same shape, names and types.
pub open spec fn place_same(a: MirPlace, b: MirPlace) -> bool
    decreases a,
{
    match a {
        MirPlace::Local(x) => b matches MirPlace::Local(y) && x == y,
        MirPlace::Arg(x) => b matches MirPlace::Arg(y) && x == y,
        MirPlace::Static(x) => b matches MirPlace::Static(y) && x@ == y@,
        MirPlace::Field { base, field_name, field_ty } => b matches MirPlace::Field { base: b2, field_name: n2, field_ty: t2 }
            && place_same(*base, *b2) && field_name@ == n2@ && type_same(t2, field_ty),
        MirPlace::Index { base, index } => b matches MirPlace::Index { base: b2, index: i2 }
            && place_same(*base, *b2) && rvalue_same(*index, *i2),
        MirPlace::Deref { base } => b matches MirPlace::Deref { base: b2 } && place_same(*base, *b2),
    }
}

/// Two values of the same shape, names and types.
pub open spec fn rvalue_same(a: MirRvalue, b: MirRvalue) -> bool
    decreases a,
{
    match a {
        MirRvalue::Literal(x) => b matches MirRvalue::Literal(y) && literal_same(y, x),
        MirRvalue::ConstArray(xs) => b matches MirRvalue::ConstArray(ys) && xs@.len() == ys@.len()
            && forall|k: int| 0 <= k < xs@.len() ==> rvalue_same(#[trigger] xs@[k], ys@[k]),
        MirRvalue::Move(p) => b matches MirRvalue::Move(q) && place_same(p, q),
        MirRvalue::Copy(p) => b matches MirRvalue::Copy(q) && place_same(p, q),
        MirRvalue::BinaryOp { op, left, right } => b matches MirRvalue::BinaryOp { op: o2, left: l2, right: r2 }
            && op == o2 && rvalue_same(*left, *l2) && rvalue_same(*right, *r2),
        MirRvalue::UnaryOp { op, operand } => b matches MirRvalue::UnaryOp { op: o2, operand: x2 }
            && op == o2 && rvalue_same(*operand, *x2),
        MirRvalue::Cast { operand, target_ty } => b matches MirRvalue::Cast { operand: x2, target_ty: t2 }
            && rvalue_same(*operand, *x2) && type_same(t2, target_ty),
        MirRvalue::Closure { captures, body } => b matches MirRvalue::Closure { captures: c2, body: b2 }
            && captures@.len() == c2@.len()
            && (forall|k: int| 0 <= k < captures@.len() ==> place_same(#[trigger] captures@[k], c2@[k]))
            && program_same(*body, *b2),
        MirRvalue::StructInit { struct_name, fields } => b matches MirRvalue::StructInit { struct_name: n2, fields: f2 }
            && struct_name@ == n2@ && fields@.len() == f2@.len()
            && forall|k: int| 0 <= k < fields@.len() ==> (#[trigger] fields@[k]).0@ == f2@[k].0@ && rvalue_same(fields@[k].1, f2@[k].1),
        MirRvalue::EnumVariantConstruction { enum_name, variant_name, args } =>
            b matches MirRvalue::EnumVariantConstruction { enum_name: e2, variant_name: v2, args: a2 }
            && enum_name@ == e2@ && variant_name@ == v2@ && args@.len() == a2@.len()
            && forall|k: int| 0 <= k < args@.len() ==> rvalue_same(#[trigger] args@[k], a2@[k]),
        MirRvalue::IntrinsicCall { func, args, generic_args } => b matches MirRvalue::IntrinsicCall { func: f2, args: a2, generic_args: g2 }
            && func@ == f2@ && args@.len() == a2@.len()
            && (forall|k: int| 0 <= k < args@.len() ==> rvalue_same(#[trigger] args@[k], a2@[k]))
            && generic_args@.len() == g2@.len()
            && forall|k: int| 0 <= k < generic_args@.len() ==> type_same(#[trigger] g2@[k], generic_args@[k]),
        MirRvalue::Unit => b is Unit,
    }
}

/// Two statements of the same shape, names and types.
pub open spec fn stmt_same(a: MirStmt, b: MirStmt) -> bool
    decreases a,
{
    match a {
        MirStmt::Assign { place, rvalue } => b matches MirStmt::Assign { place: p2, rvalue: r2 }
            && place_same(place, p2) && rvalue_same(rvalue, r2),
        MirStmt::Drop { place } => b matches MirStmt::Drop { place: p2 } && place_same(place, p2),
        MirStmt::SetMetadata { place, key, value } => b matches MirStmt::SetMetadata { place: p2, key: k2, value: v2 }
            && place_same(place, p2) && key@ == k2@ && value@ == v2@,
        MirStmt::EffectCheck { effect } => b matches MirStmt::EffectCheck { effect: e2 } && effect@ == e2@,
    }
}

/// Two terminators of the same shape, names and types.
pub open spec fn terminator_same(a: MirTerminator, b: MirTerminator) -> bool
    decreases a,
{
    match a {
        MirTerminator::Return(x) => b matches MirTerminator::Return(y) && match x {
            Some(v) => y matches Some(w) && rvalue_same(v, w),
            None => y is None,
        },
        MirTerminator::Goto(x) => b matches MirTerminator::Goto(y) && x == y,
        MirTerminator::If { cond, then_block, else_block } => b matches MirTerminator::If { cond: c2, then_block: t2, else_block: e2 }
            && rvalue_same(cond, c2) && then_block == t2 && else_block == e2,
        MirTerminator::Call { func, args, destination, target_block, is_method, generic_args } =>
            b matches MirTerminator::Call { func: f2, args: a2, destination: d2, target_block: t2, is_method: m2, generic_args: g2 }
            && func@ == f2@ && args@.len() == a2@.len()
            && (forall|k: int| 0 <= k < args@.len() ==> rvalue_same(#[trigger] args@[k], a2@[k]))
            && place_same(destination, d2) && target_block == t2 && is_method == m2
            && generic_args@.len() == g2@.len()
            && forall|k: int| 0 <= k < generic_args@.len() ==> type_same(#[trigger] g2@[k], generic_args@[k]),
        MirTerminator::BuiltinCallNoReturn { func, args } => b matches MirTerminator::BuiltinCallNoReturn { func: f2, args: a2 }
            && func@ == f2@ && args@.len() == a2@.len()
            && forall|k: int| 0 <= k < args@.len() ==> rvalue_same(#[trigger] args@[k], a2@[k]),
        MirTerminator::Switch { discr, targets, default } => b matches MirTerminator::Switch { discr: d2, targets: t2, default: f2 }
            && rvalue_same(discr, d2) && targets@ == t2@ && default == f2,
    }
}

/// Two blocks with the same statements and terminator.
pub open spec fn block_same(a: MirBasicBlock, b: MirBasicBlock) -> bool
    decreases a,
{
    &&& a.stmts@.len() == b.stmts@.len()
    &&& forall|k: int| 0 <= k < a.stmts@.len() ==> stmt_same(#[trigger] a.stmts@[k], b.stmts@[k])
    &&& terminator_same(a.terminator, b.terminator)
}

/// Two locals with the same type, flags and name.
pub open spec fn local_same(a: MirLocal, b: MirLocal) -> bool {
    type_same(b.ty, a.ty) && a.mutability == b.mutability && a.persist == b.persist && opt_text_same(a.name, b.name)
}

/// Two functions with the same parts.
pub open spec fn function_same(a: MirFunction, b: MirFunction) -> bool
    decreases a,
{
    &&& a.name@ == b.name@
    &&& string_views(a.generic_params@) == string_views(b.generic_params@)
    &&& a.args@.len() == b.args@.len()
    &&& forall|k: int| 0 <= k < a.args@.len() ==> (#[trigger] a.args@[k]).name@ == b.args@[k].name@ && type_same(b.args@[k].ty, a.args@[k].ty)
    &&& opt_type_same(b.return_ty, a.return_ty)
    &&& a.locals@.len() == b.locals@.len()
    &&& forall|k: int| 0 <= k < a.locals@.len() ==> local_same(#[trigger] a.locals@[k], b.locals@[k])
    &&& a.blocks@.len() == b.blocks@.len()
    &&& forall|k: int| 0 <= k < a.blocks@.len() ==> block_same(#[trigger] a.blocks@[k], b.blocks@[k])
    &&& a.source_map@ == b.source_map@
    &&& a.effect_set == b.effect_set
}

/// Two programs with the same functions and the same list of built-in calls.
pub open spec fn program_same(a: MirProgram, b: MirProgram) -> bool
    decreases a,
{
    &&& a.functions@.len() == b.functions@.len()
    &&& forall|k: int| 0 <= k < a.functions@.len() ==> function_same(#[trigger] a.functions@[k], b.functions@[k])
    &&& string_views(a.intrinsics_used@) == string_views(b.intrinsics_used@)
}

fn copy_strings(v: &Vec<String>) -> (r: Vec<String>)
    ensures
        string_views(r@) == string_views(v@),
{
    let mut out: Vec<String> = Vec::new();
    let mut k: usize = 0;
    while k < v.len()
        invariant
            k <= v@.len(),
            out@.len() == k,
            forall|j: int| 0 <= j < k ==> (#[trigger] out@[j])@ == v@[j]@,
        decreases v.len() - k,
    {
        out.push(v[k].clone());
        k += 1;
    }
    assert(string_views(out@) =~= string_views(v@));
    out
}

fn copy_type_list(v: &Vec<Type>) -> (r: Vec<Type>)
    ensures
        r@.len() == v@.len(),
        forall|k: int| 0 <= k < v@.len() ==> type_same(#[trigger] r@[k], v@[k]),
{
    let mut out: Vec<Type> = Vec::new();
    let mut k: usize = 0;
    while k < v.len()
        invariant
            k <= v@.len(),
            out@.len() == k,
            forall|j: int| 0 <= j < k ==> type_same(#[trigger] out@[j], v@[j]),
        decreases v.len() - k,
    {
        out.push(copy_type(&v[k]));
        k += 1;
    }
    out
}

/// A copy of a place.
pub fn copy_place(p: &MirPlace) -> (r: MirPlace)
    ensures
        place_same(*p, r),
    decreases p,
{
    match p {
        MirPlace::Local(x) => MirPlace::Local(*x),
        MirPlace::Arg(x) => MirPlace::Arg(*x),
        MirPlace::Static(x) => MirPlace::Static(x.clone()),
        MirPlace::Field { base, field_name, field_ty } => MirPlace::Field {
            base: Box::new(copy_place(base)),
            field_name: field_name.clone(),
            field_ty: copy_type(field_ty),
        },
        MirPlace::Index { base, index } => MirPlace::Index { base: Box::new(copy_place(base)), index: Box::new(copy_rvalue(index)) },
        MirPlace::Deref { base } => MirPlace::Deref { base: Box::new(copy_place(base)) },
    }
}

#[verifier::loop_isolation(false)]
fn copy_rvalues(v: &Vec<MirRvalue>) -> (r: Vec<MirRvalue>)
    ensures
        r@.len() == v@.len(),
        forall|k: int| 0 <= k < v@.len() ==> rvalue_same(#[trigger] v@[k], r@[k]),
    decreases v,
{
    let mut out: Vec<MirRvalue> = Vec::new();
    let mut k: usize = 0;
    while k < v.len()
        invariant
            k <= v@.len(),
            out@.len() == k,
            forall|j: int| 0 <= j < k ==> rvalue_same(#[trigger] v@[j], out@[j]),
        decreases v.len() - k,
    {
        proof {
            assert(decreases_to!(*v => v[k as int]));
        }
        out.push(copy_rvalue(&v[k]));
        k += 1;
    }
    out
}

/// A copy of a value.
#[verifier::loop_isolation(false)]
pub fn copy_rvalue(v: &MirRvalue) -> (r: MirRvalue)
    ensures
        rvalue_same(*v, r),
    decreases v,
{
    match v {
        MirRvalue::Literal(x) => MirRvalue::Literal(copy_literal(x)),
        MirRvalue::ConstArray(xs) => MirRvalue::ConstArray(copy_rvalues(xs)),
        MirRvalue::Move(p) => MirRvalue::Move(copy_place(p)),
        MirRvalue::Copy(p) => MirRvalue::Copy(copy_place(p)),
        MirRvalue::BinaryOp { op, left, right } => MirRvalue::BinaryOp {
            op: *op,
            left: Box::new(copy_rvalue(left)),
            right: Box::new(copy_rvalue(right)),
        },
        MirRvalue::UnaryOp { op, operand } => MirRvalue::UnaryOp { op: *op, operand: Box::new(copy_rvalue(operand)) },
        MirRvalue::Cast { operand, target_ty } => MirRvalue::Cast {
            operand: Box::new(copy_rvalue(operand)),
            target_ty: copy_type(target_ty),
        },
        MirRvalue::Closure { captures, body } => {
            let mut c2: Vec<MirPlace> = Vec::new();
            let mut k: usize = 0;
            while k < captures.len()
                invariant
                    k <= captures@.len(),
                    c2@.len() == k,
                    forall|j: int| 0 <= j < k ==> place_same(#[trigger] captures@[j], c2@[j]),
                decreases captures.len() - k,
            {
                proof {
                    assert(decreases_to!(captures => captures[k as int]));
                }
                c2.push(copy_place(&captures[k]));
                k += 1;
            }
            MirRvalue::Closure { captures: c2, body: Box::new(copy_program(body)) }
        },
        MirRvalue::StructInit { struct_name, fields } => {
            let mut f2: Vec<(String, MirRvalue)> = Vec::new();
            let mut k: usize = 0;
            while k < fields.len()
                invariant
                    k <= fields@.len(),
                    f2@.len() == k,
                    forall|j: int| 0 <= j < k ==> (#[trigger] fields@[j]).0@ == f2@[j].0@ && rvalue_same(fields@[j].1, f2@[j].1),
                decreases fields.len() - k,
            {
                proof {
                    assert(decreases_to!(fields => fields[k as int]));
                }
                f2.push((fields[k].0.clone(), copy_rvalue(&fields[k].1)));
                k += 1;
            }
            MirRvalue::StructInit { struct_name: struct_name.clone(), fields: f2 }
        },
        MirRvalue::EnumVariantConstruction { enum_name, variant_name, args } => MirRvalue::EnumVariantConstruction {
            enum_name: enum_name.clone(),
            variant_name: variant_name.clone(),
            args: copy_rvalues(args),
        },
        MirRvalue::IntrinsicCall { func, args, generic_args } => MirRvalue::IntrinsicCall {
            func: func.clone(),
            args: copy_rvalues(args),
            generic_args: copy_type_list(generic_args),
        },
        MirRvalue::Unit => MirRvalue::Unit,
    }
}

fn copy_stmt(s: &MirStmt) -> (r: MirStmt)
    ensures
        stmt_same(*s, r),
    decreases s,
{
    match s {
        MirStmt::Assign { place, rvalue } => MirStmt::Assign { place: copy_place(place), rvalue: copy_rvalue(rvalue) },
        MirStmt::Drop { place } => MirStmt::Drop { place: copy_place(place) },
        MirStmt::SetMetadata { place, key, value } => MirStmt::SetMetadata {
            place: copy_place(place),
            key: key.clone(),
            value: value.clone(),
        },
        MirStmt::EffectCheck { effect } => MirStmt::EffectCheck { effect: effect.clone() },
    }
}

fn copy_terminator(t: &MirTerminator) -> (r: MirTerminator)
    ensures
        terminator_same(*t, r),
    decreases t,
{
    match t {
        MirTerminator::Return(x) => MirTerminator::Return(match x {
            Some(v) => Some(copy_rvalue(v)),
            None => None,
        }),
        MirTerminator::Goto(b) => MirTerminator::Goto(*b),
        MirTerminator::If { cond, then_block, else_block } => MirTerminator::If {
            cond: copy_rvalue(cond),
            then_block: *then_block,
            else_block: *else_block,
        },
        MirTerminator::Call { func, args, destination, target_block, is_method, generic_args } => MirTerminator::Call {
            func: func.clone(),
            args: copy_rvalues(args),
            destination: copy_place(destination),
            target_block: *target_block,
            is_method: *is_method,
            generic_args: copy_type_list(generic_args),
        },
        MirTerminator::BuiltinCallNoReturn { func, args } => MirTerminator::BuiltinCallNoReturn {
            func: func.clone(),
            args: copy_rvalues(args),
        },
        MirTerminator::Switch { discr, targets, default } => {
            let mut t2: Vec<(i64, BasicBlockId)> = Vec::new();
            let mut k: usize = 0;
            while k < targets.len()
                invariant
                    k <= targets@.len(),
                    t2@ == targets@.take(k as int),
                decreases targets.len() - k,
            {
                t2.push(targets[k]);
                k += 1;
            }
            assert(targets@.take(targets@.len() as int) == targets@);
            MirTerminator::Switch { discr: copy_rvalue(discr), targets: t2, default: *default }
        },
    }
}

#[verifier::loop_isolation(false)]
fn copy_block(b: &MirBasicBlock) -> (r: MirBasicBlock)
    ensures
        block_same(*b, r),
    decreases b,
{
    let mut stmts: Vec<MirStmt> = Vec::new();
    let mut k: usize = 0;
    while k < b.stmts.len()
        invariant
            k <= b.stmts@.len(),
            stmts@.len() == k,
            forall|j: int| 0 <= j < k ==> stmt_same(#[trigger] b.stmts@[j], stmts@[j]),
        decreases b.stmts.len() - k,
    {
        proof {
            assert(decreases_to!(b.stmts => b.stmts[k as int]));
        }
        stmts.push(copy_stmt(&b.stmts[k]));
        k += 1;
    }
    MirBasicBlock { stmts, terminator: copy_terminator(&b.terminator) }
}

#[verifier::loop_isolation(false)]
fn copy_function(f: &MirFunction) -> (r: MirFunction)
    ensures
        function_same(*f, r),
    decreases f,
{
    let mut args: Vec<MirArg> = Vec::new();
    let mut k: usize = 0;
    while k < f.args.len()
        invariant
            k <= f.args@.len(),
            args@.len() == k,
            forall|j: int| 0 <= j < k ==> (#[trigger] f.args@[j]).name@ == args@[j].name@ && type_same(args@[j].ty, f.args@[j].ty),
        decreases f.args.len() - k,
    {
        args.push(MirArg { name: f.args[k].name.clone(), ty: copy_type(&f.args[k].ty) });
        k += 1;
    }
    let mut locals: Vec<MirLocal> = Vec::new();
    let mut k: usize = 0;
    while k < f.locals.len()
        invariant
            k <= f.locals@.len(),
            locals@.len() == k,
            forall|j: int| 0 <= j < k ==> local_same(#[trigger] f.locals@[j], locals@[j]),
        decreases f.locals.len() - k,
    {
        let l = &f.locals[k];
        let name = match &l.name {
            Some(n) => Some(n.clone()),
            None => None,
        };
        locals.push(MirLocal { ty: copy_type(&l.ty), mutability: l.mutability, persist: l.persist, name });
        k += 1;
    }
    let mut blocks: Vec<MirBasicBlock> = Vec::new();
    let mut k: usize = 0;
    while k < f.blocks.len()
        invariant
            k <= f.blocks@.len(),
            blocks@.len() == k,
            forall|j: int| 0 <= j < k ==> block_same(#[trigger] f.blocks@[j], blocks@[j]),
        decreases f.blocks.len() - k,
    {
        proof {
            assert(decreases_to!(f.blocks => f.blocks[k as int]));
        }
        blocks.push(copy_block(&f.blocks[k]));
        k += 1;
    }
    MirFunction {
        name: f.name.clone(),
        generic_params: copy_strings(&f.generic_params),
        args,
        return_ty: copy_opt_type(&f.return_ty),
        locals,
        blocks,
        source_map: f.source_map.clone(),
        effect_set: f.effect_set,
    }
}

/// A copy of a program.
#[verifier::loop_isolation(false)]
pub fn copy_program(p: &MirProgram) -> (r: MirProgram)
    ensures
        program_same(*p, r),
    decreases p,
{
    let mut functions: Vec<MirFunction> = Vec::new();
    let mut k: usize = 0;
    while k < p.functions.len()
        invariant
            k <= p.functions@.len(),
            functions@.len() == k,
            forall|j: int| 0 <= j < k ==> function_same(#[trigger] p.functions@[j], functions@[j]),
        decreases p.functions.len() - k,
    {
        proof {
            assert(decreases_to!(p.functions => p.functions[k as int]));
        }
        functions.push(copy_function(&p.functions[k]));
        k += 1;
    }
    MirProgram { functions, intrinsics_used: copy_strings(&p.intrinsics_used) }
}

} // verus!
