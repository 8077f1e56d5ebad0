use vstd::prelude::*;
use crate::ast::{Type, PrivacyTag, Literal, Pattern, BinaryOp, UnsafeKind, UnaryOp, IfKind};

verus! {

/// The side effects that an expression may have.
#[derive(Debug, Clone, Copy, PartialEq, Eq, Structural)]
pub struct EffectSet {
    pub has_io: bool,
    pub has_rng: bool,
    pub has_ai: bool,
    pub has_ffi: bool,
    pub has_panic: bool,
}

impl Default for EffectSet {
    fn default() -> (r: EffectSet)
        ensures
            r == no_effects(),
    {
        EffectSet { has_io: false, has_rng: false, has_ai: false, has_ffi: false, has_panic: false }
    }
}

/// No effect at all.
pub open spec fn no_effects() -> EffectSet {
    EffectSet { has_io: false, has_rng: false, has_ai: false, has_ffi: false, has_panic: false }
}

/// The effects of either.
pub open spec fn effect_union(a: EffectSet, b: EffectSet) -> EffectSet {
    EffectSet {
        has_io: a.has_io || b.has_io,
        has_rng: a.has_rng || b.has_rng,
        has_ai: a.has_ai || b.has_ai,
        has_ffi: a.has_ffi || b.has_ffi,
        has_panic: a.has_panic || b.has_panic,
    }
}

/// The sensitivity of a value (numbers kept as their source text).
#[derive(Debug)]
pub enum Sensitivity {
    Const(String),
    Symbolic(String),
    Dynamic { f: String, bound: String },
    Manual(String),
    Unknown,
}

/// A source span.
#[derive(Debug, Clone, Copy, PartialEq, Eq, Structural)]
pub struct Span {
    pub start: usize,
    pub end: usize,
    pub line: usize,
    pub col: usize,
}

impl Default for Span {
    fn default() -> (r: Span)
        ensures
            r == (Span { start: 0, end: 0, line: 0, col: 0 }),
    {
        Span { start: 0, end: 0, line: 0, col: 0 }
    }
}

/// A generic parameter with its bounds.
#[derive(Debug, PartialEq)]
pub struct HirGenericParam {
    pub name: String,
    pub bounds: Vec<String>,
}

#[derive(Debug)]
pub struct HirImplement {
    pub generic_params: Vec<HirGenericParam>,
    pub target_type: Type,
    pub interface_name: Option<String>,
    pub functions: Vec<HirFn>,
}

#[derive(Debug)]
pub struct HirInterface {
    pub name: String,
    pub generic_params: Vec<HirGenericParam>,
    pub methods: Vec<HirFnSig>,
}

#[derive(Debug)]
pub struct HirFnSig {
    pub name: String,
    pub generic_params: Vec<HirGenericParam>,
    pub params: Vec<HirParam>,
    pub return_type: Option<Type>,
}

#[derive(Debug)]
pub struct HirProgram {
    pub models: Vec<HirModel>,
    pub fns: Vec<HirFn>,
    pub structs: Vec<HirStruct>,
    pub enums: Vec<HirEnum>,
    pub consts: Vec<HirConst>,
    pub protos: Vec<HirProto>,
    pub impls: Vec<HirImplement>,
    pub interfaces: Vec<HirInterface>,
}

#[derive(Debug)]
pub struct HirModel {
    pub name: String,
    pub generic_params: Vec<HirGenericParam>,
    pub fields: Vec<HirField>,
    pub functions: Vec<HirFn>,
    pub sensitivity: Option<Sensitivity>,
    pub training_context_required: bool,
    pub privacy_eps: Option<String>,
}

#[derive(Debug)]
pub struct HirField {
    pub name: String,
    pub ty: Type,
}

#[derive(Debug)]
pub struct HirFn {
    pub name: String,
    pub generic_params: Vec<HirGenericParam>,
    pub params: Vec<HirParam>,
    pub return_type: Option<Type>,
    pub body: HirBlock,
    pub effects: EffectSet,
    pub sensitivity: Option<Sensitivity>,
    pub is_forward: bool,
}

#[derive(Debug)]
pub struct HirParam {
    pub name: String,
    pub ty: Type,
}

#[derive(Debug)]
pub struct HirBlock {
    pub stmts: Vec<HirStmt>,
    pub span: Span,
}

#[derive(Debug)]
pub enum HirCallArg {
    Positional(HirExpr),
    Named(String, HirExpr),
}

#[derive(Debug)]
pub enum HirStmt {
    Let { name: String, ty: Option<Type>, init: HirExpr, mutable: bool, persist: bool, span: Span },
    Expr { expr: HirExpr, span: Span },
    Return { expr: Option<HirExpr>, span: Span },
    While { cond: HirExpr, body: HirBlock, span: Span },
    For { var: String, iterable: HirExpr, body: HirBlock, span: Span },
    Assign { target: Box<HirExpr>, expr: HirExpr, span: Span },
    Loop { body: HirBlock, span: Span },
    Break { span: Span },
    UnsafeBlock { kind: UnsafeKind, body: HirBlock, span: Span },
}

#[derive(Debug)]
pub struct HirExpr {
    pub kind: HirExprKind,
    pub ty: Type,
    pub privacy_tag: Option<PrivacyTag>,
    pub sensitivity: Sensitivity,
    pub effects: EffectSet,
    pub span: Span,
}

#[derive(Debug)]
pub enum HirExprKind {
    Literal(Literal),
    Ident(String),
    Sym(String),
    BinaryOp { op: BinaryOp, left: Box<HirExpr>, right: Box<HirExpr> },
    Call { qualifier: Option<String>, func: String, generic_args: Vec<Type>, args: Vec<HirCallArg>, is_method: bool },
    Block(HirBlock),
    StructInit { struct_name: String, generic_args: Vec<Type>, fields: Vec<(String, HirExpr)> },
    FieldAccess { struct_expr: Box<HirExpr>, field_name: String },
    Range { start: Box<HirExpr>, end: Box<HirExpr> },
    EnumVariantAccess { enum_name: String, variant_name: String },
    EnumVariantConstruction { enum_name: String, generic_args: Vec<Type>, variant_name: String, args: Vec<HirCallArg> },
    Match { cond: Box<HirExpr>, arms: Vec<HirMatchArm> },
    Closure { param: String, body: Box<HirExpr> },
    If { kind: IfKind, cond: Box<HirExpr>, then_expr: Box<HirExpr>, else_expr: Option<Box<HirExpr>> },
    ArrayLiteral(Vec<HirExpr>),
    UnsafeBlock { kind: UnsafeKind, body: HirBlock, span: Span },
    Unary { op: UnaryOp, expr: Box<HirExpr> },
    Cast { expr: Box<HirExpr>, ty: Type },
    Index { expr: Box<HirExpr>, index: Box<HirExpr> },
    LackSlice(Type),
}

#[derive(Debug)]
pub struct HirMatchArm {
    pub pattern: Pattern,
    pub expr: HirExpr,
}

#[derive(Debug)]
pub struct HirStruct {
    pub name: String,
    pub generic_params: Vec<HirGenericParam>,
    pub fields: Vec<HirField>,
}

#[derive(Debug)]
pub struct HirEnumVariant {
    pub name: String,
    pub ty: Option<Type>,
}

#[derive(Debug)]
pub struct HirEnum {
    pub name: String,
    pub generic_params: Vec<HirGenericParam>,
    pub variants: Vec<HirEnumVariant>,
}

impl HirEnum {
    /// Whether the enum has generic parameters.
    pub fn is_generic(&self) -> (r: bool)
        ensures
            r == (self.generic_params@.len() > 0),
    {
        self.generic_params.len() > 0
    }
}

#[derive(Debug)]
pub struct HirConst {
    pub name: String,
    pub ty: Type,
    pub value: HirExpr,
}

#[derive(Debug)]
pub struct HirProto {
    pub name: String,
    pub variants: Vec<HirProtoVariant>,
}

#[derive(Debug)]
pub struct HirProtoVariant {
    pub name: String,
    pub ty: Option<Type>,
}

// ===== how effects combine =====

/// The expression that a call argument carries.
pub open spec fn arg_expr(a: HirCallArg) -> HirExpr {
    match a {
        HirCallArg::Positional(e) => e,
        HirCallArg::Named(_, e) => e,
    }
}

pub open spec fn args_effects(args: Seq<HirCallArg>) -> EffectSet
    decreases args.len(),
{
    if args.len() == 0 { no_effects() } else { effect_union(args_effects(args.drop_last()), arg_expr(args.last()).effects) }
}

pub open spec fn exprs_effects(es: Seq<HirExpr>) -> EffectSet
    decreases es.len(),
{
    if es.len() == 0 { no_effects() } else { effect_union(exprs_effects(es.drop_last()), es.last().effects) }
}

pub open spec fn fields_effects(fs: Seq<(String, HirExpr)>) -> EffectSet
    decreases fs.len(),
{
    if fs.len() == 0 { no_effects() } else { effect_union(fields_effects(fs.drop_last()), fs.last().1.effects) }
}

pub open spec fn arms_effects(arms: Seq<HirMatchArm>) -> EffectSet
    decreases arms.len(),
{
    if arms.len() == 0 { no_effects() } else { effect_union(arms_effects(arms.drop_last()), arms.last().expr.effects) }
}

/// Effects that a statement contributes to an unsafe block around it: those of the
/// expression of an expression statement, a `let` or a `return e`.
pub open spec fn stmt_value_effects(s: HirStmt) -> EffectSet {
    match s {
        HirStmt::Expr { expr, .. } => expr.effects,
        HirStmt::Let { init, .. } => init.effects,
        HirStmt::Return { expr: Some(e), .. } => e.effects,
        _ => no_effects(),
    }
}

/// Effects that a statement contributes to the unsafe block expression around it.
pub open spec fn unsafe_stmts_effects(stmts: Seq<HirStmt>) -> EffectSet
    decreases stmts.len(),
{
    if stmts.len() == 0 {
        no_effects()
    } else {
        effect_union(unsafe_stmts_effects(stmts.drop_last()), stmt_value_effects(stmts.last()))
    }
}

/// Effects of the expression statements directly in a list.
pub open spec fn expr_stmts_effects(stmts: Seq<HirStmt>) -> EffectSet
    decreases stmts.len(),
{
    if stmts.len() == 0 {
        no_effects()
    } else {
        effect_union(expr_stmts_effects(stmts.drop_last()), match stmts.last() {
            HirStmt::Expr { expr, .. } => expr.effects,
            _ => no_effects(),
        })
    }
}

/// Effects that a statement contributes to the block expression around it: those of
/// [`stmt_value_effects`], and for a nested unsafe block those of its expression statements.
pub open spec fn block_stmts_effects(stmts: Seq<HirStmt>) -> EffectSet
    decreases stmts.len(),
{
    if stmts.len() == 0 {
        no_effects()
    } else {
        effect_union(block_stmts_effects(stmts.drop_last()), match stmts.last() {
            HirStmt::UnsafeBlock { body, .. } => expr_stmts_effects(body.stmts@),
            s => stmt_value_effects(s),
        })
    }
}

/// The effects of a call of `func`: input/output for `print`, nothing otherwise.
pub open spec fn callee_effects(func: Seq<char>) -> EffectSet {
    if func == "print"@ { EffectSet { has_io: true, ..no_effects() } } else { no_effects() }
}

/// How the effects of an expression follow from those of its parts.
pub open spec fn effects_rule(h: HirExpr) -> bool {
    h.effects == match h.kind {
        HirExprKind::BinaryOp { left, right, .. } => effect_union(left.effects, right.effects),
        HirExprKind::Call { func, args, .. } => effect_union(callee_effects(func@), args_effects(args@)),
        HirExprKind::Block(b) => block_stmts_effects(b.stmts@),
        HirExprKind::StructInit { fields, .. } => fields_effects(fields@),
        HirExprKind::FieldAccess { struct_expr, .. } => struct_expr.effects,
        HirExprKind::Range { start, end } => effect_union(start.effects, end.effects),
        HirExprKind::Match { cond, arms } => effect_union(cond.effects, arms_effects(arms@)),
        HirExprKind::Closure { body, .. } => body.effects,
        HirExprKind::If { cond, then_expr, else_expr, .. } => effect_union(
            effect_union(cond.effects, then_expr.effects),
            match else_expr { Some(e) => e.effects, None => no_effects() },
        ),
        HirExprKind::ArrayLiteral(es) => exprs_effects(es@),
        HirExprKind::UnsafeBlock { body, .. } => unsafe_stmts_effects(body.stmts@),
        HirExprKind::Unary { expr, .. } => expr.effects,
        HirExprKind::Cast { expr, .. } => expr.effects,
        HirExprKind::Index { expr, index } => effect_union(expr.effects, index.effects),
        _ => no_effects(),
    }
}

} // verus!
