use vstd::prelude::*;
use std::collections::HashMap;
use crate::ast::{
    Program, Item, GenericParam, FnDef, StructDef, EnumDef, ConstDef, ModelDef, ProtoDef,
    ImplementDef, InterfaceDef, Block, Stmt, CallArg, Expr, ExprKind, Type, PrivacyTag, ShapeDim,
    type_same, opt_type_same, privacy_tag_same, copy_type, copy_opt_type, copy_privacy_tag,
    copy_literal, copy_pattern, copy_string_list, literal_same,
};
use crate::hir::{
    EffectSet, Sensitivity, Span, HirGenericParam, HirImplement, HirInterface, HirFnSig,
    HirProgram, HirModel, HirField, HirFn, HirParam, HirBlock, HirCallArg, HirStmt, HirExpr,
    HirExprKind, HirMatchArm, HirStruct, HirEnumVariant, HirEnum, HirConst, HirProto,
    HirProtoVariant, no_effects, effect_union, arg_expr, args_effects, exprs_effects,
    fields_effects, arms_effects, stmt_value_effects, unsafe_stmts_effects, expr_stmts_effects,
    block_stmts_effects, callee_effects, effects_rule,
};
use crate::text::{string_views, lemma_views_push, lemma_views_index, str_eq, str_lt, lex_lt, lemma_lex_irreflexive, lemma_lex_transitive, lemma_lex_total};

verus! {

broadcast use vstd::std_specs::hash::group_hash_axioms;

/// Lowers the syntax tree to the high-level IR.
pub struct HirBuilder;

// ===== what the lowering keeps =====

/// HIR generic parameters that carry the names and bounds of `a`, in order.
pub open spec fn generic_params_kept(h: Seq<HirGenericParam>, a: Seq<GenericParam>) -> bool {
    &&& h.len() == a.len()
    &&& forall|k: int| 0 <= k < a.len() ==> ((#[trigger] a[k]) matches GenericParam::Type { name, bounds }
        && h[k].name@ == name@ && h[k].bounds@ == bounds@)
}

/// The privacy tag carried by a type, compared by [`privacy_tag_same`].
pub open spec fn privacy_tag_of(t: Type, tag: Option<PrivacyTag>) -> bool {
    match t {
        Type::Privacy(_, p) => tag matches Some(q) && privacy_tag_same(q, p),
        _ => tag is None,
    }
}

/// Names of the symbolic dimensions in a shape, in order.
pub open spec fn shape_syms(shape: Seq<ShapeDim>) -> Seq<Seq<char>>
    decreases shape.len(),
{
    if shape.len() == 0 {
        Seq::empty()
    } else {
        shape_syms(shape.drop_last()) + match shape.last() {
            ShapeDim::Sym(s) => seq![s@],
            _ => Seq::<Seq<char>>::empty(),
        }
    }
}

/// Names of the symbolic dimensions of a tensor type, also under a privacy tag.
pub open spec fn type_syms(t: Type) -> Seq<Seq<char>>
    decreases t,
{
    match t {
        Type::Tensor { shape, .. } => shape_syms(shape@),
        Type::Privacy(inner, _) => type_syms(*inner),
        _ => Seq::empty(),
    }
}

pub open spec fn opt_type_syms(t: Option<Type>) -> Seq<Seq<char>> {
    match t {
        Some(x) => type_syms(x),
        None => Seq::empty(),
    }
}

/// Index of the first function named `forward`.
pub open spec fn forward_index(fns: Seq<FnDef>) -> Option<int>
    decreases fns.len(),
{
    if fns.len() == 0 {
        None
    } else {
        match forward_index(fns.drop_last()) {
            Some(i) => Some(i),
            None => if fns.last().name@ == "forward"@ { Some(fns.len() - 1) } else { None },
        }
    }
}

/// Symbolic dimensions of the parameter types, in order.
pub open spec fn params_syms(ps: Seq<crate::ast::Param>) -> Seq<Seq<char>>
    decreases ps.len(),
{
    if ps.len() == 0 { Seq::empty() } else { params_syms(ps.drop_last()) + type_syms(ps.last().ty) }
}

/// Symbolic dimensions of `forward`: its return type's, then its parameters'.
pub open spec fn forward_syms(m: ModelDef) -> Seq<Seq<char>> {
    match forward_index(m.functions@) {
        Some(i) => opt_type_syms(m.functions@[i].return_type) + params_syms(m.functions@[i].params@),
        None => Seq::empty(),
    }
}

/// A type whose privacy tag is a differential-privacy budget.
pub open spec fn is_dp_type(t: Type) -> bool {
    t matches Type::Privacy(_, PrivacyTag::Differential { .. })
}

/// The budget `eps` of the first parameter with a differential-privacy tag.
pub open spec fn first_dp_eps(ps: Seq<crate::ast::Param>) -> Option<Seq<char>>
    decreases ps.len(),
{
    if ps.len() == 0 {
        None
    } else {
        match first_dp_eps(ps.drop_last()) {
            Some(e) => Some(e),
            None => match ps.last().ty {
                Type::Privacy(_, PrivacyTag::Differential { eps, .. }) => Some(eps@),
                _ => None,
            },
        }
    }
}

/// A model's `forward` is its first function of that name: where function `j` is the first
/// named `forward`, it is the one found, whatever later functions are named; with none so
/// named, none is found.
pub proof fn lemma_forward_index_is_first(fns: Seq<FnDef>, j: int)
    requires
        0 <= j <= fns.len(),
        j < fns.len() ==> fns[j].name@ == "forward"@,
        forall|i: int| 0 <= i < j ==> (#[trigger] fns[i]).name@ != "forward"@,
    ensures
        forward_index(fns) == if j < fns.len() { Some(j) } else { None::<int> },
    decreases fns.len(),
{
    if fns.len() > 0 {
        if j == fns.len() {
            lemma_forward_index_is_first(fns.drop_last(), j - 1);
        } else {
            lemma_forward_index_is_first(fns.drop_last(), j);
        }
    }
}

/// A privacy budget comes from the first parameter with a differential-privacy tag: where
/// parameter `j` is the first such one, the budget is its `eps`, whatever later parameters
/// carry.
pub proof fn lemma_first_dp_eps_is_first(ps: Seq<crate::ast::Param>, j: int)
    requires
        0 <= j < ps.len(),
        is_dp_type(ps[j].ty),
        forall|i: int| 0 <= i < j ==> !is_dp_type(#[trigger] ps[i].ty),
    ensures
        first_dp_eps(ps) == Some(ps[j].ty->Privacy_1->eps@),
    decreases ps.len(),
{
    if j == ps.len() - 1 {
        lemma_first_dp_eps_none(ps.drop_last());
    } else {
        lemma_first_dp_eps_is_first(ps.drop_last(), j);
    }
}

/// Without a differential-privacy tag on any parameter there is no budget.
pub proof fn lemma_first_dp_eps_none(ps: Seq<crate::ast::Param>)
    requires
        forall|i: int| 0 <= i < ps.len() ==> !is_dp_type(#[trigger] ps[i].ty),
    ensures
        first_dp_eps(ps) is None,
    decreases ps.len(),
{
    if ps.len() > 0 {
        lemma_first_dp_eps_none(ps.drop_last());
    }
}

/// Strictly increasing in lexicographic order (so without repeats).
pub open spec fn sorted_unique(s: Seq<Seq<char>>) -> bool {
    forall|i: int, j: int| 0 <= i < j < s.len() ==> lex_lt(#[trigger] s[i], #[trigger] s[j])
}

/// Inserts `x` into a sorted list without repeats, keeping it so; a value already there is
/// not added again.
fn insert_sorted_unique(v: &mut Vec<String>, x: String)
    requires
        sorted_unique(string_views(old(v)@)),
    ensures
        sorted_unique(string_views(final(v)@)),
        forall|t: Seq<char>| string_views(final(v)@).contains(t)
            <==> (string_views(old(v)@).contains(t) || t == x@),
{
    let ghost old_views = string_views(v@);
    let mut k: usize = 0;
    while k < v.len() && str_lt(v[k].as_str(), x.as_str())
        invariant
            v@ == old(v)@,
            k <= v@.len(),
            forall|j: int| 0 <= j < k ==> lex_lt(#[trigger] string_views(v@)[j], x@),
        decreases v.len() - k,
    {
        proof {
            lemma_views_index(v@, k as int);
        }
        k += 1;
    }
    if k < v.len() && str_eq(v[k].as_str(), x.as_str()) {
        proof {
            lemma_views_index(v@, k as int);
        }
        assert(string_views(v@).contains(x@));
        return;
    }
    proof {
        if k < v@.len() {
            lemma_views_index(v@, k as int);
            lemma_lex_total(x@, v@[k as int]@);
            assert(lex_lt(x@, string_views(v@)[k as int]));
        }
    }
    let ghost before = v@;
    v.insert(k, x);
    proof {
        let nv = string_views(v@);
        assert(nv.len() == old_views.len() + 1);
        assert forall|j: int| 0 <= j < nv.len() implies
            #[trigger] nv[j] == (if j < k { old_views[j] } else if j == k { x@ } else { old_views[j - 1] }) by {}
        assert forall|i: int, j: int| 0 <= i < j < nv.len() implies lex_lt(#[trigger] nv[i], #[trigger] nv[j]) by {
            if j > k {
                if j - 1 > k {
                    lemma_lex_transitive(x@, old_views[k as int], old_views[j - 1]);
                }
                assert(lex_lt(x@, nv[j]));
                if i < k {
                    lemma_lex_transitive(old_views[i], x@, nv[j]);
                }
            }
        }
        assert forall|t: Seq<char>| nv.contains(t) <==> (old_views.contains(t) || t == x@) by {
            if nv.contains(t) {
                let j = choose|j: int| 0 <= j < nv.len() && nv[j] == t;
                if j < k {
                    assert(old_views[j] == t);
                } else if j > k {
                    assert(old_views[j - 1] == t);
                }
            }
            if old_views.contains(t) {
                let j = choose|j: int| 0 <= j < old_views.len() && old_views[j] == t;
                if j < k {
                    assert(nv[j] == t);
                } else {
                    assert(nv[j + 1] == t);
                }
            }
            if t == x@ {
                assert(nv[k as int] == t);
            }
        }
    }
}

impl HirBuilder {
    /// Wraps a value as a successful result.
    fn ok<T>(val: T) -> (r: Result<T, String>)
        ensures
            r == Ok::<T, String>(val),
    {
        Ok(val)
    }

    /// The generic parameters, names and bounds kept, in order.
    fn build_generic_params(generic_params: &Vec<GenericParam>) -> (r: Vec<HirGenericParam>)
        ensures
            generic_params_kept(r@, generic_params@),
    {
        let mut out: Vec<HirGenericParam> = Vec::new();
        let mut k: usize = 0;
        while k < generic_params.len()
            invariant
                k <= generic_params@.len(),
                out@.len() == k,
                forall|j: int| 0 <= j < k ==> ((#[trigger] generic_params@[j]) matches GenericParam::Type { name, bounds }
                    && out@[j].name@ == name@ && out@[j].bounds@ == bounds@),
            decreases generic_params.len() - k,
        {
            match &generic_params[k] {
                GenericParam::Type { name, bounds } => {
                    out.push(HirGenericParam { name: name.clone(), bounds: copy_string_list(bounds) });
                },
            }
            k += 1;
        }
        out
    }

    /// The privacy tag of a type, where it has one.
    fn extract_privacy_tag(ty: &Type) -> (r: Option<PrivacyTag>)
        ensures
            privacy_tag_of(*ty, r),
    {
        match ty {
            Type::Privacy(_, tag) => Some(copy_privacy_tag(tag)),
            _ => None,
        }
    }

    /// A struct: name, generic parameters and fields kept.
    fn build_struct(s: &StructDef) -> (r: Result<HirStruct, String>)
        ensures
            r matches Ok(h) && built_struct(h, *s),
    {
        let generic_params = Self::build_generic_params(&s.generic_params);
        let mut fields: Vec<HirField> = Vec::new();
        let mut k: usize = 0;
        while k < s.fields.len()
            invariant
                k <= s.fields@.len(),
                fields@.len() == k,
                forall|j: int| 0 <= j < k ==> (#[trigger] fields@[j]).name@ == s.fields@[j].name@
                    && type_same(fields@[j].ty, s.fields@[j].ty),
            decreases s.fields.len() - k,
        {
            let f = &s.fields[k];
            fields.push(HirField { name: f.name.clone(), ty: copy_type(&f.ty) });
            k += 1;
        }
        Ok(HirStruct { name: s.name.clone(), generic_params, fields })
    }

    /// An enum: name, generic parameters and variants kept.
    fn build_enum(e: &EnumDef) -> (r: Result<HirEnum, String>)
        ensures
            r matches Ok(h) && built_enum(h, *e),
    {
        let generic_params = Self::build_generic_params(&e.generic_params);
        let mut variants: Vec<HirEnumVariant> = Vec::new();
        let mut k: usize = 0;
        while k < e.variants.len()
            invariant
                k <= e.variants@.len(),
                variants@.len() == k,
                forall|j: int| 0 <= j < k ==> (#[trigger] variants@[j]).name@ == e.variants@[j].name@
                    && opt_type_same(variants@[j].ty, e.variants@[j].ty),
            decreases e.variants.len() - k,
        {
            let v = &e.variants[k];
            variants.push(HirEnumVariant { name: v.name.clone(), ty: copy_opt_type(&v.ty) });
            k += 1;
        }
        Ok(HirEnum { name: e.name.clone(), generic_params, variants })
    }

    /// A protocol: name and variants kept.
    fn build_proto(p: &ProtoDef) -> (r: Result<HirProto, String>)
        ensures
            r matches Ok(h) && built_proto(h, *p),
    {
        let mut variants: Vec<HirProtoVariant> = Vec::new();
        let mut k: usize = 0;
        while k < p.variants.len()
            invariant
                k <= p.variants@.len(),
                variants@.len() == k,
                forall|j: int| 0 <= j < k ==> (#[trigger] variants@[j]).name@ == p.variants@[j].name@
                    && opt_type_same(variants@[j].ty, p.variants@[j].ty),
            decreases p.variants.len() - k,
        {
            let v = &p.variants[k];
            variants.push(HirProtoVariant { name: v.name.clone(), ty: copy_opt_type(&v.ty) });
            k += 1;
        }
        Ok(HirProto { name: p.name.clone(), variants })
    }

    /// Appends the symbolic dimensions of an optional type.
    fn collect_syms_from_type(ty_opt: &Option<Type>, syms: &mut Vec<String>)
        ensures
            string_views(final(syms)@) == string_views(old(syms)@) + opt_type_syms(*ty_opt),
    {
        if let Some(ty) = ty_opt {
            Self::collect_syms_from_type_inner(ty, syms);
        } else {
            assert(string_views(syms@) == string_views(syms@) + Seq::<Seq<char>>::empty());
        }
    }

    /// Appends the symbolic dimensions of a tensor type, also under a privacy tag.
    fn collect_syms_from_type_inner(ty: &Type, syms: &mut Vec<String>)
        ensures
            string_views(final(syms)@) == string_views(old(syms)@) + type_syms(*ty),
        decreases ty,
    {
        match ty {
            Type::Tensor { shape, .. } => {
                let ghost start = syms@;
                let mut k: usize = 0;
                while k < shape.len()
                    invariant
                        k <= shape@.len(),
                        string_views(syms@) == string_views(start) + shape_syms(shape@.take(k as int)),
                    decreases shape.len() - k,
                {
                    assert(shape@.take(k as int + 1).drop_last() == shape@.take(k as int));
                    if let ShapeDim::Sym(s) = &shape[k] {
                        proof {
                            lemma_views_push(syms@, *s);
                        }
                        syms.push(s.clone());
                    }
                    k += 1;
                    proof {
                        assert(string_views(syms@) == string_views(start) + shape_syms(shape@.take(k as int)));
                    }
                }
                assert(shape@.take(shape@.len() as int) == shape@);
            },
            Type::Privacy(inner, _) => Self::collect_syms_from_type_inner(inner, syms),
            _ => {
                assert(string_views(syms@) == string_views(syms@) + Seq::<Seq<char>>::empty());
            },
        }
    }
}

} // verus!

verus! {

/// What lowering an expression gives: its type from the type table (`i32` where the table has
/// none), the privacy tag of that type, unknown sensitivity, effects combined from its parts
/// by [`effects_rule`], and an empty span.
pub open spec fn built_expr(e: Expr, h: HirExpr, types: Map<usize, Type>) -> bool {
    &&& (if types.contains_key(e.id) { type_same(h.ty, types[e.id]) } else { h.ty == Type::I32 })
    &&& privacy_tag_of(h.ty, h.privacy_tag)
    &&& h.sensitivity is Unknown
    &&& effects_rule(h)
    &&& h.span == (Span { start: 0, end: 0, line: 0, col: 0 })
}

/// Two optional names that agree.
pub open spec fn opt_name_same(a: Option<String>, b: Option<String>) -> bool {
    match (a, b) {
        (Some(x), Some(y)) => x@ == y@,
        (None, None) => true,
        _ => false,
    }
}

/// `h` is the expression `e` lowered, all the way down: [`built_expr`] holds of it, it is
/// the same kind of expression with the same names, operators, literals and types, no
/// generic arguments where the HIR has room for them, and each part is the matching part
/// of `e` lowered.
pub open spec fn lowered(e: Expr, h: HirExpr, types: Map<usize, Type>) -> bool
    decreases e,
{
    &&& built_expr(e, h, types)
    &&& match (e.kind, h.kind) {
        (ExprKind::Literal(l), HirExprKind::Literal(m)) => literal_same(m, l),
        (ExprKind::Ident(n), HirExprKind::Ident(m)) => m@ == n@,
        (ExprKind::Sym(n), HirExprKind::Sym(m)) => m@ == n@,
        (ExprKind::BinaryOp { op, left, right }, HirExprKind::BinaryOp { op: o, left: l, right: r }) =>
            o == op && lowered(*left, *l, types) && lowered(*right, *r, types),
        (ExprKind::Call { qualifier, func, args, is_method },
            HirExprKind::Call { qualifier: q, func: f, generic_args, args: a, is_method: m }) => {
            &&& opt_name_same(q, qualifier) && f@ == func@ && m == is_method
            &&& generic_args@.len() == 0
            &&& a@.len() == args@.len()
            &&& forall|k: int| 0 <= k < args@.len() ==> lowered_arg(#[trigger] args@[k], a@[k], types)
        },
        (ExprKind::Block(b), HirExprKind::Block(hb)) => lowered_block(b, hb, types),
        (ExprKind::StructInit { struct_name, fields },
            HirExprKind::StructInit { struct_name: n, generic_args, fields: hf }) => {
            &&& n@ == struct_name@ && generic_args@.len() == 0
            &&& hf@.len() == fields@.len()
            &&& forall|k: int| 0 <= k < fields@.len() ==> (#[trigger] hf@[k]).0@ == fields@[k].0@
                && lowered(fields@[k].1, hf@[k].1, types)
        },
        (ExprKind::FieldAccess { struct_expr, field_name }, HirExprKind::FieldAccess { struct_expr: x, field_name: n }) =>
            n@ == field_name@ && lowered(*struct_expr, *x, types),
        (ExprKind::Range { start, end }, HirExprKind::Range { start: s, end: t }) =>
            lowered(*start, *s, types) && lowered(*end, *t, types),
        (ExprKind::EnumVariantAccess { enum_name, variant_name },
            HirExprKind::EnumVariantAccess { enum_name: en, variant_name: vn }) =>
            en@ == enum_name@ && vn@ == variant_name@,
        (ExprKind::EnumVariantConstruction { enum_name, variant_name, args },
            HirExprKind::EnumVariantConstruction { enum_name: en, generic_args, variant_name: vn, args: a }) => {
            &&& en@ == enum_name@ && vn@ == variant_name@ && generic_args@.len() == 0
            &&& a@.len() == args@.len()
            &&& forall|k: int| 0 <= k < args@.len() ==> lowered_arg(#[trigger] args@[k], a@[k], types)
        },
        (ExprKind::Match(me), HirExprKind::Match { cond, arms }) => {
            &&& lowered(*me.cond, *cond, types)
            &&& arms@.len() == me.arms@.len()
            &&& forall|k: int| 0 <= k < me.arms@.len() ==> (#[trigger] arms@[k]).pattern == me.arms@[k].pattern
                && lowered(*me.arms@[k].expr, arms@[k].expr, types)
        },
        (ExprKind::Closure { param, body }, HirExprKind::Closure { param: p, body: b }) =>
            p@ == param@ && lowered(*body, *b, types),
        (ExprKind::If { kind, cond, then_expr, else_expr },
            HirExprKind::If { kind: k, cond: c, then_expr: t, else_expr: x }) => {
            &&& k == kind && lowered(*cond, *c, types) && lowered(*then_expr, *t, types)
            &&& match (else_expr, x) {
                (Some(ee), Some(hx)) => lowered(*ee, *hx, types),
                (None, None) => true,
                _ => false,
            }
        },
        (ExprKind::ArrayLiteral(es), HirExprKind::ArrayLiteral(hs)) => {
            &&& hs@.len() == es@.len()
            &&& forall|k: int| 0 <= k < es@.len() ==> lowered(#[trigger] es@[k], hs@[k], types)
        },
        (ExprKind::UnsafeBlock(u), HirExprKind::UnsafeBlock { kind, body, span }) =>
            kind == u.kind && lowered_block(u.body, body, types) && span == (Span { start: 0, end: 0, line: 0, col: 0 }),
        (ExprKind::Unary { op, expr }, HirExprKind::Unary { op: o, expr: x }) =>
            o == op && lowered(*expr, *x, types),
        (ExprKind::Cast { expr, ty }, HirExprKind::Cast { expr: x, ty: t }) =>
            type_same(t, ty) && lowered(*expr, *x, types),
        (ExprKind::Index { expr, index }, HirExprKind::Index { expr: x, index: i }) =>
            lowered(*expr, *x, types) && lowered(*index, *i, types),
        (ExprKind::LackSlice(t), HirExprKind::LackSlice(u)) => type_same(u, t),
        _ => false,
    }
}

/// A call argument lowered: the same kind, the same name, its expression lowered.
pub open spec fn lowered_arg(a: CallArg, h: HirCallArg, types: Map<usize, Type>) -> bool
    decreases a,
{
    match (a, h) {
        (CallArg::Positional(e), HirCallArg::Positional(x)) => lowered(e, x, types),
        (CallArg::Named(n, e), HirCallArg::Named(m, x)) => m@ == n@ && lowered(e, x, types),
        _ => false,
    }
}

/// A block lowered: its statements lowered one for one, in order, and an empty span.
pub open spec fn lowered_block(b: Block, h: HirBlock, types: Map<usize, Type>) -> bool
    decreases b,
{
    &&& h.span == (Span { start: 0, end: 0, line: 0, col: 0 })
    &&& h.stmts@.len() == b.stmts@.len()
    &&& forall|k: int| 0 <= k < b.stmts@.len() ==> lowered_stmt(#[trigger] b.stmts@[k], h.stmts@[k], types)
}

/// A statement lowered: the same kind of statement with the same names and flags, its
/// expressions and blocks lowered, and an empty span.
pub open spec fn lowered_stmt(s: Stmt, h: HirStmt, types: Map<usize, Type>) -> bool
    decreases s,
{
    match (s, h) {
        (Stmt::Let(l), HirStmt::Let { name, ty, init, mutable, persist, span }) =>
            name@ == l.name@ && opt_type_same(ty, l.ty) && lowered(*l.init, init, types)
                && mutable == l.mutable && persist == l.persist && span == (Span { start: 0, end: 0, line: 0, col: 0 }),
        (Stmt::ExprStmt(e), HirStmt::Expr { expr, span }) =>
            lowered(e, expr, types) && span == (Span { start: 0, end: 0, line: 0, col: 0 }),
        (Stmt::Return(eo), HirStmt::Return { expr, span }) => span == (Span { start: 0, end: 0, line: 0, col: 0 })
            && match (eo, expr) {
                (Some(e), Some(x)) => lowered(e, x, types),
                (None, None) => true,
                _ => false,
            },
        (Stmt::While(w), HirStmt::While { cond, body, span }) =>
            lowered(*w.cond, cond, types) && lowered_block(w.body, body, types)
                && span == (Span { start: 0, end: 0, line: 0, col: 0 }),
        (Stmt::For(f), HirStmt::For { var, iterable, body, span }) =>
            var@ == f.var@ && lowered(*f.iterable, iterable, types) && lowered_block(f.body, body, types)
                && span == (Span { start: 0, end: 0, line: 0, col: 0 }),
        (Stmt::Assign(a), HirStmt::Assign { target, expr, span }) =>
            lowered(*a.target, *target, types) && lowered(*a.expr, expr, types)
                && span == (Span { start: 0, end: 0, line: 0, col: 0 }),
        (Stmt::Loop(l), HirStmt::Loop { body, span }) =>
            lowered_block(l.body, body, types) && span == (Span { start: 0, end: 0, line: 0, col: 0 }),
        (Stmt::Break(_), HirStmt::Break { span }) => span == (Span { start: 0, end: 0, line: 0, col: 0 }),
        (Stmt::UnsafeBlock(u), HirStmt::UnsafeBlock { kind, body, span }) =>
            kind == u.kind && lowered_block(u.body, body, types) && span == (Span { start: 0, end: 0, line: 0, col: 0 }),
        _ => false,
    }
}

/// The expression that a call argument carries.
pub open spec fn ast_arg_expr(a: CallArg) -> Expr {
    match a {
        CallArg::Positional(e) => e,
        CallArg::Named(_, e) => e,
    }
}

/// Lowered call arguments: same kinds and names, each expression lowered.
pub open spec fn built_args(args: Seq<CallArg>, h: Seq<HirCallArg>, types: Map<usize, Type>) -> bool {
    &&& h.len() == args.len()
    &&& forall|k: int| 0 <= k < args.len() ==> {
        &&& built_expr(ast_arg_expr(args[k]), arg_expr(#[trigger] h[k]), types)
        &&& match (args[k], h[k]) {
            (CallArg::Positional(_), HirCallArg::Positional(_)) => true,
            (CallArg::Named(n, _), HirCallArg::Named(m, _)) => m@ == n@,
            _ => false,
        }
    }
}

fn union_effects(a: EffectSet, b: EffectSet) -> (r: EffectSet)
    ensures
        r == effect_union(a, b),
{
    EffectSet {
        has_io: a.has_io || b.has_io,
        has_rng: a.has_rng || b.has_rng,
        has_ai: a.has_ai || b.has_ai,
        has_ffi: a.has_ffi || b.has_ffi,
        has_panic: a.has_panic || b.has_panic,
    }
}

fn args_fx(args: &Vec<HirCallArg>) -> (r: EffectSet)
    ensures
        r == args_effects(args@),
{
    let mut acc = EffectSet::default();
    let mut k: usize = 0;
    while k < args.len()
        invariant
            k <= args@.len(),
            acc == args_effects(args@.take(k as int)),
        decreases args.len() - k,
    {
        assert(args@.take(k as int + 1).drop_last() == args@.take(k as int));
        let fx = match &args[k] {
            HirCallArg::Positional(e) => e.effects,
            HirCallArg::Named(_, e) => e.effects,
        };
        acc = union_effects(acc, fx);
        k += 1;
    }
    assert(args@.take(args@.len() as int) == args@);
    acc
}

fn exprs_fx(es: &Vec<HirExpr>) -> (r: EffectSet)
    ensures
        r == exprs_effects(es@),
{
    let mut acc = EffectSet::default();
    let mut k: usize = 0;
    while k < es.len()
        invariant
            k <= es@.len(),
            acc == exprs_effects(es@.take(k as int)),
        decreases es.len() - k,
    {
        assert(es@.take(k as int + 1).drop_last() == es@.take(k as int));
        acc = union_effects(acc, es[k].effects);
        k += 1;
    }
    assert(es@.take(es@.len() as int) == es@);
    acc
}

fn fields_fx(fs: &Vec<(String, HirExpr)>) -> (r: EffectSet)
    ensures
        r == fields_effects(fs@),
{
    let mut acc = EffectSet::default();
    let mut k: usize = 0;
    while k < fs.len()
        invariant
            k <= fs@.len(),
            acc == fields_effects(fs@.take(k as int)),
        decreases fs.len() - k,
    {
        assert(fs@.take(k as int + 1).drop_last() == fs@.take(k as int));
        acc = union_effects(acc, fs[k].1.effects);
        k += 1;
    }
    assert(fs@.take(fs@.len() as int) == fs@);
    acc
}

fn arms_fx(arms: &Vec<HirMatchArm>) -> (r: EffectSet)
    ensures
        r == arms_effects(arms@),
{
    let mut acc = EffectSet::default();
    let mut k: usize = 0;
    while k < arms.len()
        invariant
            k <= arms@.len(),
            acc == arms_effects(arms@.take(k as int)),
        decreases arms.len() - k,
    {
        assert(arms@.take(k as int + 1).drop_last() == arms@.take(k as int));
        acc = union_effects(acc, arms[k].expr.effects);
        k += 1;
    }
    assert(arms@.take(arms@.len() as int) == arms@);
    acc
}

fn stmt_value_fx(s: &HirStmt) -> (r: EffectSet)
    ensures
        r == stmt_value_effects(*s),
{
    match s {
        HirStmt::Expr { expr, .. } => expr.effects,
        HirStmt::Let { init, .. } => init.effects,
        HirStmt::Return { expr: Some(e), .. } => e.effects,
        _ => EffectSet::default(),
    }
}

fn unsafe_stmts_fx(stmts: &Vec<HirStmt>) -> (r: EffectSet)
    ensures
        r == unsafe_stmts_effects(stmts@),
{
    let mut acc = EffectSet::default();
    let mut k: usize = 0;
    while k < stmts.len()
        invariant
            k <= stmts@.len(),
            acc == unsafe_stmts_effects(stmts@.take(k as int)),
        decreases stmts.len() - k,
    {
        assert(stmts@.take(k as int + 1).drop_last() == stmts@.take(k as int));
        acc = union_effects(acc, stmt_value_fx(&stmts[k]));
        k += 1;
    }
    assert(stmts@.take(stmts@.len() as int) == stmts@);
    acc
}

fn expr_stmts_fx(stmts: &Vec<HirStmt>) -> (r: EffectSet)
    ensures
        r == expr_stmts_effects(stmts@),
{
    let mut acc = EffectSet::default();
    let mut k: usize = 0;
    while k < stmts.len()
        invariant
            k <= stmts@.len(),
            acc == expr_stmts_effects(stmts@.take(k as int)),
        decreases stmts.len() - k,
    {
        assert(stmts@.take(k as int + 1).drop_last() == stmts@.take(k as int));
        let fx = match &stmts[k] {
            HirStmt::Expr { expr, .. } => expr.effects,
            _ => EffectSet::default(),
        };
        acc = union_effects(acc, fx);
        k += 1;
    }
    assert(stmts@.take(stmts@.len() as int) == stmts@);
    acc
}

fn block_stmts_fx(stmts: &Vec<HirStmt>) -> (r: EffectSet)
    ensures
        r == block_stmts_effects(stmts@),
{
    let mut acc = EffectSet::default();
    let mut k: usize = 0;
    while k < stmts.len()
        invariant
            k <= stmts@.len(),
            acc == block_stmts_effects(stmts@.take(k as int)),
        decreases stmts.len() - k,
    {
        assert(stmts@.take(k as int + 1).drop_last() == stmts@.take(k as int));
        let fx = match &stmts[k] {
            HirStmt::UnsafeBlock { body, .. } => expr_stmts_fx(&body.stmts),
            s => stmt_value_fx(s),
        };
        acc = union_effects(acc, fx);
        k += 1;
    }
    assert(stmts@.take(stmts@.len() as int) == stmts@);
    acc
}

impl HirBuilder {
    /// Lowers an expression (see [`built_expr`]).
    #[verifier::loop_isolation(false)]
    fn build_expr(expr: &Expr, expr_types: &HashMap<usize, Type>) -> (r: Result<HirExpr, String>)
        ensures
            r matches Ok(h) && lowered(*expr, h, expr_types@),
        decreases expr, 2int,
    {
        let ty = match expr_types.get(&expr.id) {
            Some(t) => copy_type(t),
            None => Type::I32,
        };
        let privacy_tag = Self::extract_privacy_tag(&ty);
        let (kind, effects) = match &expr.kind {
            ExprKind::Literal(lit) => (HirExprKind::Literal(copy_literal(lit)), EffectSet::default()),
            ExprKind::Ident(name) => (HirExprKind::Ident(name.clone()), EffectSet::default()),
            ExprKind::Sym(name) => (HirExprKind::Sym(name.clone()), EffectSet::default()),
            ExprKind::BinaryOp { op, left, right } => {
                let left = Self::build_expr(left, expr_types)?;
                let right = Self::build_expr(right, expr_types)?;
                let fx = union_effects(left.effects, right.effects);
                (HirExprKind::BinaryOp { op: *op, left: Box::new(left), right: Box::new(right) }, fx)
            },
            ExprKind::Call { qualifier, func, args, is_method } => {
                let hir_args = Self::build_call_args(args, expr_types)?;
                let mut fx = EffectSet::default();
                if str_eq(func.as_str(), "print") {
                    fx.has_io = true;
                }
                let fx = union_effects(fx, args_fx(&hir_args));
                (HirExprKind::Call {
                    qualifier: match qualifier { Some(q) => Some(q.clone()), None => None },
                    func: func.clone(),
                    generic_args: Vec::new(),
                    args: hir_args,
                    is_method: *is_method,
                }, fx)
            },
            ExprKind::Block(block) => {
                let hir_block = Self::build_block(block, expr_types)?;
                let fx = block_stmts_fx(&hir_block.stmts);
                (HirExprKind::Block(hir_block), fx)
            },
            ExprKind::StructInit { struct_name, fields } => {
                let mut hir_fields: Vec<(String, HirExpr)> = Vec::new();
                let mut k: usize = 0;
                while k < fields.len()
                    invariant
                        k <= fields@.len(),
                        hir_fields@.len() == k,
                        forall|j: int| 0 <= j < k ==> (#[trigger] hir_fields@[j]).0@ == fields@[j].0@
                            && lowered(fields@[j].1, hir_fields@[j].1, expr_types@),
                    decreases fields.len() - k,
                {
                    proof {
                        broadcast use vstd::std_specs::vec::axiom_vec_index_decreases;
                        assert(decreases_to!(*fields => fields[k as int]));
                    }
                    let (name, e) = &fields[k];
                    let h = Self::build_expr(e, expr_types)?;
                    hir_fields.push((name.clone(), h));
                    k += 1;
                }
                let fx = fields_fx(&hir_fields);
                (HirExprKind::StructInit { struct_name: struct_name.clone(), generic_args: Vec::new(), fields: hir_fields }, fx)
            },
            ExprKind::FieldAccess { struct_expr, field_name } => {
                let inner = Self::build_expr(struct_expr, expr_types)?;
                let fx = inner.effects;
                (HirExprKind::FieldAccess { struct_expr: Box::new(inner), field_name: field_name.clone() }, fx)
            },
            ExprKind::Range { start, end } => {
                let start = Self::build_expr(start, expr_types)?;
                let end = Self::build_expr(end, expr_types)?;
                let fx = union_effects(start.effects, end.effects);
                (HirExprKind::Range { start: Box::new(start), end: Box::new(end) }, fx)
            },
            ExprKind::EnumVariantAccess { enum_name, variant_name } => (
                HirExprKind::EnumVariantAccess { enum_name: enum_name.clone(), variant_name: variant_name.clone() },
                EffectSet::default(),
            ),
            ExprKind::EnumVariantConstruction { enum_name, variant_name, args } => {
                let hir_args = Self::build_call_args(args, expr_types)?;
                (HirExprKind::EnumVariantConstruction {
                    enum_name: enum_name.clone(),
                    generic_args: Vec::new(),
                    variant_name: variant_name.clone(),
                    args: hir_args,
                }, EffectSet::default())
            },
            ExprKind::Match(match_expr) => {
                let cond = Self::build_expr(&match_expr.cond, expr_types)?;
                let mut arms: Vec<HirMatchArm> = Vec::new();
                let mut k: usize = 0;
                while k < match_expr.arms.len()
                    invariant
                        k <= match_expr.arms@.len(),
                        arms@.len() == k,
                        forall|j: int| 0 <= j < k ==> (#[trigger] arms@[j]).pattern == match_expr.arms@[j].pattern
                            && lowered(*match_expr.arms@[j].expr, arms@[j].expr, expr_types@),
                    decreases match_expr.arms.len() - k,
                {
                    proof {
                        broadcast use vstd::std_specs::vec::axiom_vec_index_decreases;
                        assert(decreases_to!(match_expr.arms => match_expr.arms[k as int]));
                    }
                    let arm = &match_expr.arms[k];
                    let arm_expr = Self::build_expr(&arm.expr, expr_types)?;
                    arms.push(HirMatchArm { pattern: copy_pattern(&arm.pattern), expr: arm_expr });
                    k += 1;
                }
                let fx = union_effects(cond.effects, arms_fx(&arms));
                (HirExprKind::Match { cond: Box::new(cond), arms }, fx)
            },
            ExprKind::Closure { param, body } => {
                let body = Self::build_expr(body, expr_types)?;
                let fx = body.effects;
                (HirExprKind::Closure { param: param.clone(), body: Box::new(body) }, fx)
            },
            ExprKind::If { kind: if_kind, cond, then_expr, else_expr } => {
                let cond = Self::build_expr(cond, expr_types)?;
                let then_expr = Self::build_expr(then_expr, expr_types)?;
                let else_expr = match else_expr {
                    Some(e) => Some(Box::new(Self::build_expr(e, expr_types)?)),
                    None => None,
                };
                let else_fx = match &else_expr {
                    Some(e) => e.effects,
                    None => EffectSet::default(),
                };
                let fx = union_effects(union_effects(cond.effects, then_expr.effects), else_fx);
                (HirExprKind::If { kind: *if_kind, cond: Box::new(cond), then_expr: Box::new(then_expr), else_expr }, fx)
            },
            ExprKind::ArrayLiteral(elements) => {
                let mut hir_elements: Vec<HirExpr> = Vec::new();
                let mut k: usize = 0;
                while k < elements.len()
                    invariant
                        k <= elements@.len(),
                        hir_elements@.len() == k,
                        forall|j: int| 0 <= j < k ==> lowered(#[trigger] elements@[j], hir_elements@[j], expr_types@),
                    decreases elements.len() - k,
                {
                    proof {
                        broadcast use vstd::std_specs::vec::axiom_vec_index_decreases;
                        assert(decreases_to!(*elements => elements[k as int]));
                    }
                    let h = Self::build_expr(&elements[k], expr_types)?;
                    hir_elements.push(h);
                    k += 1;
                }
                let fx = exprs_fx(&hir_elements);
                (HirExprKind::ArrayLiteral(hir_elements), fx)
            },
            ExprKind::UnsafeBlock(unsafe_block) => {
                let body = Self::build_block(&unsafe_block.body, expr_types)?;
                let fx = unsafe_stmts_fx(&body.stmts);
                (HirExprKind::UnsafeBlock { kind: unsafe_block.kind, body, span: Span::default() }, fx)
            },
            ExprKind::Unary { op, expr } => {
                let inner = Self::build_expr(expr, expr_types)?;
                let fx = inner.effects;
                (HirExprKind::Unary { op: *op, expr: Box::new(inner) }, fx)
            },
            ExprKind::Cast { expr, ty: cast_ty } => {
                let inner = Self::build_expr(expr, expr_types)?;
                let fx = inner.effects;
                (HirExprKind::Cast { expr: Box::new(inner), ty: copy_type(cast_ty) }, fx)
            },
            ExprKind::Index { expr, index } => {
                let base = Self::build_expr(expr, expr_types)?;
                let idx = Self::build_expr(index, expr_types)?;
                let fx = union_effects(base.effects, idx.effects);
                (HirExprKind::Index { expr: Box::new(base), index: Box::new(idx) }, fx)
            },
            ExprKind::LackSlice(t) => (HirExprKind::LackSlice(copy_type(t)), EffectSet::default()),
        };
        Ok(HirExpr { kind, ty, privacy_tag, sensitivity: Sensitivity::Unknown, effects, span: Span::default() })
    }

    /// Lowers call arguments (see [`built_args`]).
    #[verifier::loop_isolation(false)]
    fn build_call_args(args: &Vec<CallArg>, expr_types: &HashMap<usize, Type>) -> (r: Result<Vec<HirCallArg>, String>)
        ensures
            r matches Ok(h) && built_args(args@, h@, expr_types@)
                && forall|k: int| 0 <= k < args@.len() ==> lowered_arg(#[trigger] args@[k], h@[k], expr_types@),
        decreases args, 1int,
    {
        let mut out: Vec<HirCallArg> = Vec::new();
        let mut k: usize = 0;
        while k < args.len()
            invariant
                k <= args@.len(),
                built_args(args@.take(k as int), out@, expr_types@),
                forall|j: int| 0 <= j < k ==> lowered_arg(#[trigger] args@[j], out@[j], expr_types@),
            decreases args.len() - k,
        {
            proof {
                broadcast use vstd::std_specs::vec::axiom_vec_index_decreases;
                assert(decreases_to!(*args => args[k as int]));
            }
            let a = match &args[k] {
                CallArg::Positional(e) => {
                    let h = Self::build_expr(e, expr_types)?;
                    Self::ok(HirCallArg::Positional(h))?
                },
                CallArg::Named(name, e) => {
                    let h = Self::build_expr(e, expr_types)?;
                    Self::ok(HirCallArg::Named(name.clone(), h))?
                },
            };
            out.push(a);
            k += 1;
            proof {
                assert forall|j: int| 0 <= j < k implies #[trigger] args@.take(k as int)[j] == args@[j] by {}
            }
        }
        assert(args@.take(args@.len() as int) == args@);
        Ok(out)
    }

    /// Lowers a block: one statement for each, in order, with empty spans.
    #[verifier::loop_isolation(false)]
    fn build_block(block: &Block, expr_types: &HashMap<usize, Type>) -> (r: Result<HirBlock, String>)
        ensures
            r matches Ok(h) && lowered_block(*block, h, expr_types@),
        decreases block, 0int,
    {
        let mut stmts: Vec<HirStmt> = Vec::new();
        let mut k: usize = 0;
        while k < block.stmts.len()
            invariant
                k <= block.stmts@.len(),
                stmts@.len() == k,
                forall|j: int| 0 <= j < k ==> lowered_stmt(#[trigger] block.stmts@[j], stmts@[j], expr_types@),
            decreases block.stmts.len() - k,
        {
            proof {
                broadcast use vstd::std_specs::vec::axiom_vec_index_decreases;
                assert(decreases_to!(block.stmts => block.stmts[k as int]));
            }
            let s = match &block.stmts[k] {
                Stmt::Let(let_stmt) => {
                    let init = Self::build_expr(&let_stmt.init, expr_types)?;
                    HirStmt::Let {
                        name: let_stmt.name.clone(),
                        ty: copy_opt_type(&let_stmt.ty),
                        init,
                        mutable: let_stmt.mutable,
                        persist: let_stmt.persist,
                        span: Span::default(),
                    }
                },
                Stmt::ExprStmt(e) => {
                    let expr = Self::build_expr(e, expr_types)?;
                    HirStmt::Expr { expr, span: Span::default() }
                },
                Stmt::Return(expr_opt) => {
                    let expr = match expr_opt {
                        Some(e) => Some(Self::build_expr(e, expr_types)?),
                        None => None,
                    };
                    HirStmt::Return { expr, span: Span::default() }
                },
                Stmt::While(while_stmt) => {
                    let cond = Self::build_expr(&while_stmt.cond, expr_types)?;
                    let body = Self::build_block(&while_stmt.body, expr_types)?;
                    HirStmt::While { cond, body, span: Span::default() }
                },
                Stmt::For(for_stmt) => {
                    let iterable = Self::build_expr(&for_stmt.iterable, expr_types)?;
                    let body = Self::build_block(&for_stmt.body, expr_types)?;
                    HirStmt::For { var: for_stmt.var.clone(), iterable, body, span: Span::default() }
                },
                Stmt::Assign(assign_stmt) => {
                    let target = Self::build_expr(&assign_stmt.target, expr_types)?;
                    let expr = Self::build_expr(&assign_stmt.expr, expr_types)?;
                    HirStmt::Assign { target: Box::new(target), expr, span: Span::default() }
                },
                Stmt::Loop(loop_stmt) => {
                    let body = Self::build_block(&loop_stmt.body, expr_types)?;
                    HirStmt::Loop { body, span: Span::default() }
                },
                Stmt::Break(_) => HirStmt::Break { span: Span::default() },
                Stmt::UnsafeBlock(unsafe_block) => {
                    let body = Self::build_block(&unsafe_block.body, expr_types)?;
                    HirStmt::UnsafeBlock { kind: unsafe_block.kind, body, span: Span::default() }
                },
            };
            stmts.push(s);
            k += 1;
        }
        Ok(HirBlock { stmts, span: Span::default() })
    }
}

} // verus!

verus! {

/// Parameters kept: names and types, in order.
pub open spec fn params_kept(h: Seq<HirParam>, a: Seq<crate::ast::Param>) -> bool {
    &&& h.len() == a.len()
    &&& forall|k: int| 0 <= k < a.len() ==> (#[trigger] h[k]).name@ == a[k].name@ && type_same(h[k].ty, a[k].ty)
}

/// `h` is the struct `s` lowered: name, generic parameters and fields kept.
pub open spec fn built_struct(h: HirStruct, s: StructDef) -> bool {
    &&& h.name@ == s.name@
    &&& generic_params_kept(h.generic_params@, s.generic_params@)
    &&& h.fields@.len() == s.fields@.len()
    &&& forall|k: int| 0 <= k < s.fields@.len() ==> (#[trigger] h.fields@[k]).name@ == s.fields@[k].name@
        && type_same(h.fields@[k].ty, s.fields@[k].ty)
}

/// `h` is the enum `e` lowered: name, generic parameters and variants kept.
pub open spec fn built_enum(h: HirEnum, e: EnumDef) -> bool {
    &&& h.name@ == e.name@
    &&& generic_params_kept(h.generic_params@, e.generic_params@)
    &&& h.variants@.len() == e.variants@.len()
    &&& forall|k: int| 0 <= k < e.variants@.len() ==> (#[trigger] h.variants@[k]).name@ == e.variants@[k].name@
        && opt_type_same(h.variants@[k].ty, e.variants@[k].ty)
}

/// `h` is the protocol `p` lowered: name and variants kept.
pub open spec fn built_proto(h: HirProto, p: ProtoDef) -> bool {
    &&& h.name@ == p.name@
    &&& h.variants@.len() == p.variants@.len()
    &&& forall|k: int| 0 <= k < p.variants@.len() ==> (#[trigger] h.variants@[k]).name@ == p.variants@[k].name@
        && opt_type_same(h.variants@[k].ty, p.variants@[k].ty)
}

/// `h` is the function `f` lowered: name, generic parameters, parameters and return type
/// kept, its body lowered (see [`lowered_block`]), no effects or sensitivity yet; it is a
/// forward pass where it is named `forward` and belongs to a model.
pub open spec fn built_fn(h: HirFn, f: FnDef, in_model: bool, types: Map<usize, Type>) -> bool {
    &&& h.name@ == f.name@
    &&& generic_params_kept(h.generic_params@, f.generic_params@)
    &&& params_kept(h.params@, f.params@)
    &&& opt_type_same(h.return_type, f.return_type)
    &&& lowered_block(f.body, h.body, types)
    &&& h.effects == no_effects()
    &&& h.sensitivity is None
    &&& h.is_forward == (f.name@ == "forward"@ && in_model)
}

/// `h` is the constant `c` lowered, its value by [`lowered`].
pub open spec fn built_const(h: HirConst, c: ConstDef, types: Map<usize, Type>) -> bool {
    &&& h.name@ == c.name@
    &&& type_same(h.ty, c.ty)
    &&& lowered(*c.value, h.value, types)
}

/// `h` is the implement block `imp` lowered: generic parameters, target and interface kept,
/// each function lowered, in order.
pub open spec fn built_implement(h: HirImplement, imp: ImplementDef, types: Map<usize, Type>) -> bool {
    &&& generic_params_kept(h.generic_params@, imp.generic_params@)
    &&& type_same(h.target_type, imp.target_type)
    &&& crate::ast::opt_text_same(h.interface_name, imp.interface_name)
    &&& h.functions@.len() == imp.functions@.len()
    &&& forall|k: int| 0 <= k < imp.functions@.len() ==> built_fn(#[trigger] h.functions@[k], imp.functions@[k], false, types)
}

/// `h` is the interface `iface` lowered: name, generic parameters and method signatures kept.
pub open spec fn built_interface(h: HirInterface, iface: InterfaceDef) -> bool {
    &&& h.name@ == iface.name@
    &&& generic_params_kept(h.generic_params@, iface.generic_params@)
    &&& h.methods@.len() == iface.methods@.len()
    &&& forall|k: int| 0 <= k < iface.methods@.len() ==> {
        let (hm, am) = (#[trigger] h.methods@[k], iface.methods@[k]);
        &&& hm.name@ == am.name@
        &&& generic_params_kept(hm.generic_params@, am.generic_params@)
        &&& params_kept(hm.params@, am.params@)
        &&& opt_type_same(hm.return_type, am.return_type)
    }
}

/// `h` is the model `m` lowered: name and fields kept, each function lowered in order; its
/// generic parameters are the symbolic names of its `forward` function's types, sorted,
/// without bounds; it needs a training context where a parameter of `forward` has a
/// differential-privacy tag, and its budget is that of the first such parameter.
pub open spec fn built_model(h: HirModel, m: ModelDef, types: Map<usize, Type>) -> bool {
    &&& h.name@ == m.name@
    &&& sorted_unique(string_views(h.generic_params@.map_values(|g: HirGenericParam| g.name)))
    &&& forall|t: Seq<char>| string_views(h.generic_params@.map_values(|g: HirGenericParam| g.name)).contains(t)
        <==> forward_syms(m).contains(t)
    &&& forall|k: int| 0 <= k < h.generic_params@.len() ==> (#[trigger] h.generic_params@[k]).bounds@.len() == 0
    &&& h.fields@.len() == m.fields@.len()
    &&& forall|k: int| 0 <= k < m.fields@.len() ==> (#[trigger] h.fields@[k]).name@ == m.fields@[k].name@
        && type_same(h.fields@[k].ty, m.fields@[k].ty)
    &&& h.functions@.len() == m.functions@.len()
    &&& forall|k: int| 0 <= k < m.functions@.len() ==> built_fn(#[trigger] h.functions@[k], m.functions@[k], true, types)
    &&& h.sensitivity is None
    &&& h.training_context_required == match forward_index(m.functions@) {
        Some(i) => exists|k: int| 0 <= k < m.functions@[i].params@.len()
            && is_dp_type(#[trigger] m.functions@[i].params@[k].ty),
        None => false,
    }
    &&& match forward_index(m.functions@) {
        Some(i) => match first_dp_eps(m.functions@[i].params@) {
            Some(e) => h.privacy_eps matches Some(p) && p@ == e,
            None => h.privacy_eps is None,
        },
        None => h.privacy_eps is None,
    }
}

/// The models among the items, in order.
pub open spec fn item_models(items: Seq<Item>) -> Seq<ModelDef>
    decreases items.len(),
{
    if items.len() == 0 { Seq::empty() } else {
        item_models(items.drop_last()) + match items.last() { Item::ModelDef(x) => seq![x], _ => Seq::empty() }
    }
}

/// The functions among the items, in order.
pub open spec fn item_fns(items: Seq<Item>) -> Seq<FnDef>
    decreases items.len(),
{
    if items.len() == 0 { Seq::empty() } else {
        item_fns(items.drop_last()) + match items.last() { Item::FnDef(x) => seq![x], _ => Seq::empty() }
    }
}

/// The structs among the items, in order.
pub open spec fn item_structs(items: Seq<Item>) -> Seq<StructDef>
    decreases items.len(),
{
    if items.len() == 0 { Seq::empty() } else {
        item_structs(items.drop_last()) + match items.last() { Item::StructDef(x) => seq![x], _ => Seq::empty() }
    }
}

/// The enums among the items, in order.
pub open spec fn item_enums(items: Seq<Item>) -> Seq<EnumDef>
    decreases items.len(),
{
    if items.len() == 0 { Seq::empty() } else {
        item_enums(items.drop_last()) + match items.last() { Item::EnumDef(x) => seq![x], _ => Seq::empty() }
    }
}

/// The constants among the items, in order.
pub open spec fn item_consts(items: Seq<Item>) -> Seq<ConstDef>
    decreases items.len(),
{
    if items.len() == 0 { Seq::empty() } else {
        item_consts(items.drop_last()) + match items.last() { Item::ConstDef(x) => seq![x], _ => Seq::empty() }
    }
}

/// The protocols among the items, in order.
pub open spec fn item_protos(items: Seq<Item>) -> Seq<ProtoDef>
    decreases items.len(),
{
    if items.len() == 0 { Seq::empty() } else {
        item_protos(items.drop_last()) + match items.last() { Item::ProtoDef(x) => seq![x], _ => Seq::empty() }
    }
}

/// The implement blocks among the items, in order.
pub open spec fn item_impls(items: Seq<Item>) -> Seq<ImplementDef>
    decreases items.len(),
{
    if items.len() == 0 { Seq::empty() } else {
        item_impls(items.drop_last()) + match items.last() { Item::Implement(x) => seq![x], _ => Seq::empty() }
    }
}

/// The interfaces among the items, in order.
pub open spec fn item_interfaces(items: Seq<Item>) -> Seq<InterfaceDef>
    decreases items.len(),
{
    if items.len() == 0 { Seq::empty() } else {
        item_interfaces(items.drop_last()) + match items.last() { Item::Interface(x) => seq![x], _ => Seq::empty() }
    }
}

/// `p` holds each item of `items` lowered, kind by kind and in order (see the `built_`
/// predicates); `use` items leave nothing.
pub open spec fn built_program(p: HirProgram, items: Seq<Item>, types: Map<usize, Type>) -> bool {
    &&& p.models@.len() == item_models(items).len()
    &&& forall|i: int| 0 <= i < p.models@.len() ==> built_model(#[trigger] p.models@[i], item_models(items)[i], types)
    &&& p.fns@.len() == item_fns(items).len()
    &&& forall|i: int| 0 <= i < p.fns@.len() ==> built_fn(#[trigger] p.fns@[i], item_fns(items)[i], false, types)
    &&& p.structs@.len() == item_structs(items).len()
    &&& forall|i: int| 0 <= i < p.structs@.len() ==> built_struct(#[trigger] p.structs@[i], item_structs(items)[i])
    &&& p.enums@.len() == item_enums(items).len()
    &&& forall|i: int| 0 <= i < p.enums@.len() ==> built_enum(#[trigger] p.enums@[i], item_enums(items)[i])
    &&& p.consts@.len() == item_consts(items).len()
    &&& forall|i: int| 0 <= i < p.consts@.len() ==> built_const(#[trigger] p.consts@[i], item_consts(items)[i], types)
    &&& p.protos@.len() == item_protos(items).len()
    &&& forall|i: int| 0 <= i < p.protos@.len() ==> built_proto(#[trigger] p.protos@[i], item_protos(items)[i])
    &&& p.impls@.len() == item_impls(items).len()
    &&& forall|i: int| 0 <= i < p.impls@.len() ==> built_implement(#[trigger] p.impls@[i], item_impls(items)[i], types)
    &&& p.interfaces@.len() == item_interfaces(items).len()
    &&& forall|i: int| 0 <= i < p.interfaces@.len() ==> built_interface(#[trigger] p.interfaces@[i], item_interfaces(items)[i])
}

fn build_params(ps: &Vec<crate::ast::Param>) -> (r: Vec<HirParam>)
    ensures
        params_kept(r@, ps@),
{
    let mut out: Vec<HirParam> = Vec::new();
    let mut k: usize = 0;
    while k < ps.len()
        invariant
            k <= ps@.len(),
            out@.len() == k,
            forall|j: int| 0 <= j < k ==> (#[trigger] out@[j]).name@ == ps@[j].name@ && type_same(out@[j].ty, ps@[j].ty),
        decreases ps.len() - k,
    {
        out.push(HirParam { name: ps[k].name.clone(), ty: copy_type(&ps[k].ty) });
        k += 1;
    }
    out
}

impl HirBuilder {
    /// Lowers a function; it is the forward pass where it is named `forward` and belongs to a
    /// model.
    fn build_fn(f: &FnDef, expr_types: &HashMap<usize, Type>, model_owner: Option<String>) -> (r: Result<HirFn, String>)
        ensures
            r matches Ok(h) && built_fn(h, *f, model_owner is Some, expr_types@),
    {
        let params = build_params(&f.params);
        let body = Self::build_block(&f.body, expr_types)?;
        let return_type = copy_opt_type(&f.return_type);
        let is_forward = str_eq(f.name.as_str(), "forward") && model_owner.is_some();
        Ok(HirFn {
            name: f.name.clone(),
            generic_params: Self::build_generic_params(&f.generic_params),
            params,
            return_type,
            body,
            effects: EffectSet::default(),
            sensitivity: None,
            is_forward,
        })
    }

    /// Lowers a constant.
    fn build_const(c: &ConstDef, expr_types: &HashMap<usize, Type>) -> (r: Result<HirConst, String>)
        ensures
            r matches Ok(h) && built_const(h, *c, expr_types@),
    {
        let value = Self::build_expr(&c.value, expr_types)?;
        Ok(HirConst { name: c.name.clone(), ty: copy_type(&c.ty), value })
    }

    fn build_fns(fns: &Vec<FnDef>, expr_types: &HashMap<usize, Type>, owner: &Option<String>) -> (r: Result<Vec<HirFn>, String>)
        ensures
            r matches Ok(v) && v@.len() == fns@.len()
                && forall|k: int| 0 <= k < fns@.len() ==> built_fn(#[trigger] v@[k], fns@[k], owner is Some, expr_types@),
    {
        let mut out: Vec<HirFn> = Vec::new();
        let mut k: usize = 0;
        while k < fns.len()
            invariant
                k <= fns@.len(),
                out@.len() == k,
                forall|j: int| 0 <= j < k ==> built_fn(#[trigger] out@[j], fns@[j], owner is Some, expr_types@),
            decreases fns.len() - k,
        {
            let o = match owner {
                Some(n) => Some(n.clone()),
                None => None,
            };
            let f = Self::build_fn(&fns[k], expr_types, o)?;
            out.push(f);
            k += 1;
        }
        Ok(out)
    }

    /// Lowers a model. Its generic parameters are the distinct symbolic dimensions of its
    /// `forward` function's return and parameter types, sorted, without bounds; it needs a
    /// training context where a parameter of `forward` has a differential-privacy tag, and its
    /// budget is that of the first such parameter.
    fn build_model(m: &ModelDef, expr_types: &HashMap<usize, Type>) -> (r: Result<HirModel, String>)
        ensures
            r matches Ok(h) && built_model(h, *m, expr_types@),
    {
        let fwd = Self::find_forward(&m.functions);
        let mut syms: Vec<String> = Vec::new();
        if let Some(i) = fwd {
            let forward = &m.functions[i];
            Self::collect_syms_from_type(&forward.return_type, &mut syms);
            let mut k: usize = 0;
            while k < forward.params.len()
                invariant
                    k <= forward.params@.len(),
                    string_views(syms@) == opt_type_syms(forward.return_type) + params_syms(forward.params@.take(k as int)),
                decreases forward.params.len() - k,
            {
                assert(forward.params@.take(k as int + 1).drop_last() == forward.params@.take(k as int));
                Self::collect_syms_from_type_inner(&forward.params[k].ty, &mut syms);
                k += 1;
            }
            assert(forward.params@.take(forward.params@.len() as int) == forward.params@);
        } else {
            assert(string_views(syms@) =~= Seq::<Seq<char>>::empty());
        }
        let ghost all = string_views(syms@);
        let mut unique: Vec<String> = Vec::new();
        let mut k: usize = 0;
        while k < syms.len()
            invariant
                k <= syms@.len(),
                all == string_views(syms@),
                sorted_unique(string_views(unique@)),
                forall|t: Seq<char>| string_views(unique@).contains(t) <==> all.take(k as int).contains(t),
            decreases syms.len() - k,
        {
            proof {
                lemma_views_index(syms@, k as int);
                assert forall|t: Seq<char>| all.take(k as int + 1).contains(t) <==> (all.take(k as int).contains(t) || t == syms@[k as int]@) by {
                    if all.take(k as int + 1).contains(t) {
                        let j = choose|j: int| 0 <= j < k + 1 && #[trigger] all.take(k as int + 1)[j] == t;
                        if j < k {
                            assert(all.take(k as int)[j] == t);
                        }
                    }
                    if all.take(k as int).contains(t) {
                        let j = choose|j: int| 0 <= j < k && #[trigger] all.take(k as int)[j] == t;
                        assert(all.take(k as int + 1)[j] == t);
                    }
                    if t == syms@[k as int]@ {
                        assert(all.take(k as int + 1)[k as int] == t);
                    }
                }
            }
            let ghost prev = string_views(unique@);
            let x = syms[k].clone();
            insert_sorted_unique(&mut unique, x);
            proof {
                assert(x@ == all[k as int]);
                assert forall|t: Seq<char>| string_views(unique@).contains(t) <==> all.take(k as int + 1).contains(t) by {
                    assert(string_views(unique@).contains(t) <==> (prev.contains(t) || t == x@));
                }
            }
            k += 1;
        }
        assert(all.take(syms@.len() as int) == all);
        let mut generic_params: Vec<HirGenericParam> = Vec::new();
        let mut j: usize = 0;
        while j < unique.len()
            invariant
                j <= unique@.len(),
                generic_params@.len() == j,
                forall|i: int| 0 <= i < j ==> (#[trigger] generic_params@[i]).name == unique@[i]
                    && generic_params@[i].bounds@.len() == 0,
            decreases unique.len() - j,
        {
            generic_params.push(HirGenericParam { name: unique[j].clone(), bounds: Vec::new() });
            j += 1;
        }
        proof {
            assert(string_views(generic_params@.map_values(|g: HirGenericParam| g.name)) =~= string_views(unique@));
        }
        let mut fields: Vec<HirField> = Vec::new();
        let mut k: usize = 0;
        while k < m.fields.len()
            invariant
                k <= m.fields@.len(),
                fields@.len() == k,
                forall|j: int| 0 <= j < k ==> (#[trigger] fields@[j]).name@ == m.fields@[j].name@
                    && type_same(fields@[j].ty, m.fields@[j].ty),
            decreases m.fields.len() - k,
        {
            fields.push(HirField { name: m.fields[k].name.clone(), ty: copy_type(&m.fields[k].ty) });
            k += 1;
        }
        let owner = Some(m.name.clone());
        let functions = Self::build_fns(&m.functions, expr_types, &owner)?;
        let (training_context_required, privacy_eps) = match fwd {
            Some(i) => Self::dp_params(&m.functions[i].params),
            None => (false, None),
        };
        Ok(HirModel {
            name: m.name.clone(),
            generic_params,
            fields,
            functions,
            sensitivity: None,
            training_context_required,
            privacy_eps,
        })
    }

    /// Index of the first function named `forward`.
    fn find_forward(fns: &Vec<FnDef>) -> (r: Option<usize>)
        ensures
            match forward_index(fns@) {
                Some(i) => r matches Some(j) && j == i,
                None => r is None,
            },
            r matches Some(i) ==> i < fns@.len(),
    {
        proof {
            lemma_forward_index_range(fns@);
        }
        let mut k: usize = 0;
        while k < fns.len()
            invariant
                k <= fns@.len(),
                forward_index(fns@.take(k as int)) is None,
            decreases fns.len() - k,
        {
            assert(fns@.take(k as int + 1).drop_last() == fns@.take(k as int));
            if str_eq(fns[k].name.as_str(), "forward") {
                proof {
                    lemma_forward_index_prefix(fns@, k as int + 1);
                }
                return Some(k);
            }
            k += 1;
        }
        assert(fns@.take(fns@.len() as int) == fns@);
        None
    }

    /// Whether a parameter has a differential-privacy tag, and the budget of the first one.
    fn dp_params(ps: &Vec<crate::ast::Param>) -> (r: (bool, Option<String>))
        ensures
            r.0 == exists|k: int| 0 <= k < ps@.len() && is_dp_type(#[trigger] ps@[k].ty),
            match first_dp_eps(ps@) {
                Some(e) => r.1 matches Some(p) && p@ == e,
                None => r.1 is None,
            },
    {
        let mut found = false;
        let mut eps: Option<String> = None;
        let mut k: usize = 0;
        while k < ps.len()
            invariant
                k <= ps@.len(),
                found == exists|j: int| 0 <= j < k && is_dp_type(#[trigger] ps@[j].ty),
                match first_dp_eps(ps@.take(k as int)) {
                    Some(e) => eps matches Some(p) && p@ == e,
                    None => eps is None,
                },
            decreases ps.len() - k,
        {
            assert(ps@.take(k as int + 1).drop_last() == ps@.take(k as int));
            if let Type::Privacy(_, PrivacyTag::Differential { eps: e, .. }) = &ps[k].ty {
                found = true;
                if eps.is_none() {
                    eps = Some(e.clone());
                }
            }
            k += 1;
        }
        assert(ps@.take(ps@.len() as int) == ps@);
        (found, eps)
    }

    /// Lowers an implement block.
    fn build_implement(imp: &ImplementDef, expr_types: &HashMap<usize, Type>) -> (r: Result<HirImplement, String>)
        ensures
            r matches Ok(h) && built_implement(h, *imp, expr_types@),
    {
        let none: Option<String> = None;
        let functions = Self::build_fns(&imp.functions, expr_types, &none)?;
        Ok(HirImplement {
            generic_params: Self::build_generic_params(&imp.generic_params),
            target_type: copy_type(&imp.target_type),
            interface_name: match &imp.interface_name { Some(n) => Some(n.clone()), None => None },
            functions,
        })
    }

    /// Lowers an interface: its method signatures kept.
    fn build_interface(iface: &InterfaceDef) -> (r: Result<HirInterface, String>)
        ensures
            r matches Ok(h) && built_interface(h, *iface),
    {
        let mut methods: Vec<HirFnSig> = Vec::new();
        let mut k: usize = 0;
        while k < iface.methods.len()
            invariant
                k <= iface.methods@.len(),
                methods@.len() == k,
                forall|j: int| 0 <= j < k ==> {
                    let (hm, am) = (#[trigger] methods@[j], iface.methods@[j]);
                    &&& hm.name@ == am.name@
                    &&& generic_params_kept(hm.generic_params@, am.generic_params@)
                    &&& params_kept(hm.params@, am.params@)
                    &&& opt_type_same(hm.return_type, am.return_type)
                },
            decreases iface.methods.len() - k,
        {
            let sig = &iface.methods[k];
            methods.push(HirFnSig {
                name: sig.name.clone(),
                generic_params: Self::build_generic_params(&sig.generic_params),
                params: build_params(&sig.params),
                return_type: copy_opt_type(&sig.return_type),
            });
            k += 1;
        }
        Ok(HirInterface {
            name: iface.name.clone(),
            generic_params: Self::build_generic_params(&iface.generic_params),
            methods,
        })
    }

    /// Lowers a program: one HIR declaration for each item of the matching kind, in order;
    /// `use` items are dropped.
    pub fn build(program: &Program, expr_types: &HashMap<usize, Type>) -> (r: Result<HirProgram, String>)
        ensures
            r matches Ok(p) && built_program(p, program.items@, expr_types@),
    {
        let mut models: Vec<HirModel> = Vec::new();
        let mut fns: Vec<HirFn> = Vec::new();
        let mut structs: Vec<HirStruct> = Vec::new();
        let mut enums: Vec<HirEnum> = Vec::new();
        let mut consts: Vec<HirConst> = Vec::new();
        let mut protos: Vec<HirProto> = Vec::new();
        let mut impls: Vec<HirImplement> = Vec::new();
        let mut interfaces: Vec<HirInterface> = Vec::new();
        let ghost items = program.items@;
        let mut k: usize = 0;
        while k < program.items.len()
            invariant
                k <= items.len(),
                items == program.items@,
                built_program(HirProgram { models, fns, structs, enums, consts, protos, impls, interfaces },
                    items.take(k as int), expr_types@),
            decreases program.items.len() - k,
        {
            let ghost before = items.take(k as int);
            let ghost after = items.take(k as int + 1);
            assert(after.drop_last() == before);
            assert(after.last() == items[k as int]);
            match &program.items[k] {
                Item::ModelDef(m) => models.push(Self::build_model(m, expr_types)?),
                Item::FnDef(f) => fns.push(Self::build_fn(f, expr_types, None)?),
                Item::StructDef(s) => structs.push(Self::build_struct(s)?),
                Item::EnumDef(e) => enums.push(Self::build_enum(e)?),
                Item::ConstDef(c) => consts.push(Self::build_const(c, expr_types)?),
                Item::ProtoDef(p) => protos.push(Self::build_proto(p)?),
                Item::Use(_) => {},
                Item::Implement(imp) => impls.push(Self::build_implement(imp, expr_types)?),
                Item::Interface(iface) => interfaces.push(Self::build_interface(iface)?),
            }
            proof {
                assert(item_models(after) == item_models(before) + match items[k as int] { Item::ModelDef(x) => seq![x], _ => Seq::empty() });
                assert(item_fns(after) == item_fns(before) + match items[k as int] { Item::FnDef(x) => seq![x], _ => Seq::empty() });
                assert(item_structs(after) == item_structs(before) + match items[k as int] { Item::StructDef(x) => seq![x], _ => Seq::empty() });
                assert(item_enums(after) == item_enums(before) + match items[k as int] { Item::EnumDef(x) => seq![x], _ => Seq::empty() });
                assert(item_consts(after) == item_consts(before) + match items[k as int] { Item::ConstDef(x) => seq![x], _ => Seq::empty() });
                assert(item_protos(after) == item_protos(before) + match items[k as int] { Item::ProtoDef(x) => seq![x], _ => Seq::empty() });
                assert(item_impls(after) == item_impls(before) + match items[k as int] { Item::Implement(x) => seq![x], _ => Seq::empty() });
                assert(item_interfaces(after) == item_interfaces(before) + match items[k as int] { Item::Interface(x) => seq![x], _ => Seq::empty() });
            }
            k += 1;
        }
        assert(items.take(items.len() as int) == items);
        Ok(HirProgram { models, fns, structs, enums, consts, protos, impls, interfaces })
    }
}

proof fn lemma_forward_index_range(fns: Seq<FnDef>)
    ensures
        forward_index(fns) matches Some(i) ==> 0 <= i < fns.len(),
    decreases fns.len(),
{
    if fns.len() > 0 {
        lemma_forward_index_range(fns.drop_last());
    }
}

proof fn lemma_forward_index_prefix(fns: Seq<FnDef>, n: int)
    requires
        0 < n <= fns.len(),
        forward_index(fns.take(n - 1)) is None,
        fns[n - 1].name@ == "forward"@,
    ensures
        forward_index(fns) == Some(n - 1),
    decreases fns.len(),
{
    assert(fns.take(n).drop_last() == fns.take(n - 1));
    if n < fns.len() {
        assert(fns.drop_last().take(n) == fns.take(n));
        assert(fns.drop_last().take(n - 1) == fns.take(n - 1));
        lemma_forward_index_prefix(fns.drop_last(), n);
    } else {
        assert(fns.take(n) == fns);
        assert(fns.drop_last() == fns.take(n - 1));
    }
}

} // verus!
