use vstd::prelude::*;
use std::collections::HashMap;
use crate::ast::{
    Program, Item, Attribute, AttributeArg, GenericParam, FnDef, StructDef, StructField, EnumDef, EnumVariant,
    ModelDef, ImplementDef, Param, Block, Stmt, CallArg, Expr, ExprKind, MatchExpr, MatchArm, Pattern, UnaryOp, IfKind,
    Literal, BinaryOp, Type, PrivacyTag, ShapeDim, type_same, opt_type_same, privacy_tag_same,
    shape_dim_same, copy_type, copy_opt_type, copy_privacy_tag, copy_shape_dim, copy_fn_def,
    copy_struct_def, copy_enum_def, copy_generic_params, generic_param_name_of,
};
use crate::hir::HirProgram;
use crate::hir_builder::{HirBuilder, built_program};
use crate::rational::{rational_le, rational_eq, rational_min, rational_le_spec, rational_eq_spec};
use crate::text::{str_eq, push_str, push_decimal, string_views, lemma_views_push};
use crate::show::{type_debug, type_text, push_type};

verus! {

broadcast use vstd::std_specs::hash::group_hash_axioms;

/// A method of an implement block, with the block's target type.
struct MethodInfo {
    fn_def: FnDef,
    target_type: Type,
}

/// The type checker: symbol tables gathered from the items, the scopes of the function being
/// checked, and the type found for each expression id.
pub struct TypeChecker {
    pub scopes: Vec<Vec<(String, Type)>>,
    pub structs: Vec<StructDef>,
    pub enums: Vec<EnumDef>,
    pub consts: Vec<(String, Type)>,
    pub functions: Vec<FnDef>,
    methods: Vec<(String, Vec<MethodInfo>)>,
    pub in_model: bool,
    pub fn_stack: Vec<String>,
    pub model_names: Vec<String>,
    pub model_return_types: Vec<(String, Type)>,
    pub model_sensitivities: Vec<(String, String)>,
    pub current_self_type: Option<Type>,
    pub current_return_type: Option<Type>,
    pub expr_types: HashMap<usize, Type>,
}

/// Concatenation of string pieces.
fn cat(parts: &Vec<&str>) -> (r: String)
    ensures
        r@ == parts@.fold_left(Seq::<char>::empty(), |acc: Seq<char>, p: &str| acc + p@),
{
    let mut out = String::new();
    let mut k: usize = 0;
    while k < parts.len()
        invariant
            k <= parts@.len(),
            out@ == parts@.take(k as int).fold_left(Seq::<char>::empty(), |acc: Seq<char>, p: &str| acc + p@),
        decreases parts.len() - k,
    {
        proof {
            assert(parts@.take(k as int + 1).drop_last() == parts@.take(k as int));
        }
        push_str(&mut out, parts[k]);
        k += 1;
    }
    assert(parts@.take(parts@.len() as int) == parts@);
    out
}

// ===== type relations =====

/// Type equality of the checker: structural, names by text; a privacy tag on either side is
/// looked through; type parameters are equal to themselves only; `Self` is equal to nothing.
pub open spec fn types_eq(a: Type, b: Type) -> bool
    decreases a, b,
{
    match (a, b) {
        (Type::I8, Type::I8) => true,
        (Type::I16, Type::I16) => true,
        (Type::I32, Type::I32) => true,
        (Type::I64, Type::I64) => true,
        (Type::I128, Type::I128) => true,
        (Type::U8, Type::U8) => true,
        (Type::U16, Type::U16) => true,
        (Type::U32, Type::U32) => true,
        (Type::U64, Type::U64) => true,
        (Type::U128, Type::U128) => true,
        (Type::F16, Type::F16) => true,
        (Type::F32, Type::F32) => true,
        (Type::F64, Type::F64) => true,
        (Type::Bool, Type::Bool) => true,
        (Type::Char, Type::Char) => true,
        (Type::Str, Type::Str) => true,
        (Type::Unit, Type::Unit) => true,
        (Type::Struct(n1), Type::Struct(n2)) => n1@ == n2@,
        (Type::Enum(n1), Type::Enum(n2)) => n1@ == n2@,
        (Type::Generic(n1, a1), Type::Generic(n2, a2)) => n1@ == n2@ && a1@.len() == a2@.len()
            && forall|k: int| 0 <= k < a1@.len() ==> types_eq(#[trigger] a1@[k], a2@[k]),
        (Type::Ref { mutable: m1, inner: i1 }, Type::Ref { mutable: m2, inner: i2 }) => m1 == m2 && types_eq(*i1, *i2),
        (Type::Slice(t1), Type::Slice(t2)) => types_eq(*t1, *t2),
        (Type::Tensor { dtype: d1, shape: s1 }, Type::Tensor { dtype: d2, shape: s2 }) =>
            types_eq(*d1, *d2) && s1@.len() == s2@.len()
            && forall|k: int| 0 <= k < s1@.len() ==> shape_dim_same(#[trigger] s1@[k], s2@[k]),
        (Type::ConstIntArray(v1), Type::ConstIntArray(v2)) => v1@ == v2@,
        (Type::Privacy(i1, _), Type::Privacy(i2, _)) => types_eq(*i1, *i2),
        (Type::Privacy(i, _), _) => types_eq(*i, b),
        (_, Type::Privacy(i, _)) => types_eq(a, *i),
        (Type::TypeParam(n1), Type::TypeParam(n2)) => n1@ == n2@,
        _ => false,
    }
}

/// The type without privacy tags, at the top and under references.
pub open spec fn stripped(t: Type) -> Type
    decreases t,
{
    match t {
        Type::Privacy(inner, _) => stripped(*inner),
        Type::Ref { mutable, inner } => Type::Ref { mutable, inner: Box::new(stripped(*inner)) },
        _ => t,
    }
}

/// A type equal to a tensor type is a tensor once its privacy labels are taken off.
pub proof fn lemma_eq_tensor(a: Type, b: Type)
    requires
        a is Tensor,
        types_eq(a, b),
    ensures
        stripped(b) is Tensor,
    decreases b,
{
    if let Type::Privacy(i, _) = b {
        lemma_eq_tensor(a, *i);
    }
}

/// The type under any number of references.
pub open spec fn deref_all(t: Type) -> Type
    decreases t,
{
    match t {
        Type::Ref { inner, .. } => deref_all(*inner),
        _ => t,
    }
}

/// The privacy tag of a type, also one under references.
pub open spec fn privacy_of(t: Type) -> Option<PrivacyTag>
    decreases t,
{
    match t {
        Type::Privacy(_, tag) => Some(tag),
        Type::Ref { inner, .. } => privacy_of(*inner),
        _ => None,
    }
}

pub open spec fn opt_tag_same(a: Option<PrivacyTag>, b: Option<PrivacyTag>) -> bool {
    match (a, b) {
        (Some(x), Some(y)) => privacy_tag_same(x, y),
        (None, None) => true,
        _ => false,
    }
}

/// Two privacy tags that the checker takes for equal: the same kind, budgets equal as
/// rationals.
pub open spec fn tags_eq(a: PrivacyTag, b: PrivacyTag) -> bool {
    match (a, b) {
        (PrivacyTag::Public, PrivacyTag::Public) => true,
        (PrivacyTag::Private, PrivacyTag::Private) => true,
        (PrivacyTag::Differential { eps: e1, delta: d1 }, PrivacyTag::Differential { eps: e2, delta: d2 }) =>
            rational_eq_spec(e1@, e2@) && match (d1, d2) {
                (Some(x), Some(y)) => rational_eq_spec(x@, y@),
                (None, None) => true,
                _ => false,
            },
        _ => false,
    }
}

/// The tag of a value computed from two tagged values: `public` gives way to the other,
/// `private` wins, and two budgets join to the smaller `eps` and the larger `delta`.
pub open spec fn joined_tag(a: PrivacyTag, b: PrivacyTag, r: PrivacyTag) -> bool {
    match (a, b) {
        (PrivacyTag::Public, x) => privacy_tag_same(r, x),
        (x, PrivacyTag::Public) => privacy_tag_same(r, x),
        (PrivacyTag::Private, _) => r is Private,
        (_, PrivacyTag::Private) => r is Private,
        (PrivacyTag::Differential { eps: e1, delta: d1 }, PrivacyTag::Differential { eps: e2, delta: d2 }) =>
            r matches PrivacyTag::Differential { eps, delta } && {
                &&& eps@ == (if rational_le_spec(e1@, e2@) { e1@ } else { e2@ })
                &&& match (d1, d2) {
                    (Some(x), Some(y)) => delta matches Some(d) && d@ == (if rational_le_spec(x@, y@) { y@ } else { x@ }),
                    (Some(x), None) => delta matches Some(d) && d@ == x@,
                    (None, Some(y)) => delta matches Some(d) && d@ == y@,
                    (None, None) => delta is None,
                }
            },
    }
}

/// The joined privacy label of two types' tags.
pub open spec fn joined_label(a: Type, b: Type, r: Option<PrivacyTag>) -> bool {
    match (privacy_of(a), privacy_of(b)) {
        (Some(x), Some(y)) => r matches Some(t) && joined_tag(x, y, t),
        (Some(x), None) => r matches Some(t) && privacy_tag_same(t, x),
        (None, Some(y)) => r matches Some(t) && privacy_tag_same(t, y),
        (None, None) => r is None,
    }
}

/// `base` carrying the tag `tag`, where there is one.
pub open spec fn labeled(r: Type, base: Type, tag: Option<PrivacyTag>) -> bool {
    match tag {
        Some(t) => r matches Type::Privacy(inner, u) && type_same(*inner, base) && privacy_tag_same(u, t),
        None => type_same(r, base),
    }
}

pub open spec fn is_numeric(t: Type) -> bool {
    t is I8 || t is I16 || t is I32 || t is I64 || t is I128 || t is U8 || t is U16 || t is U32
        || t is U64 || t is U128 || t is F16 || t is F32 || t is F64
}

pub open spec fn is_signed_numeric(t: Type) -> bool {
    t is I8 || t is I16 || t is I32 || t is I64 || t is I128 || t is F16 || t is F32 || t is F64
}

pub open spec fn is_integer(t: Type) -> bool {
    t is I8 || t is I16 || t is I32 || t is I64 || t is I128 || t is U8 || t is U16 || t is U32
        || t is U64 || t is U128
}

pub open spec fn is_int_literal(e: Expr) -> bool {
    e.kind matches ExprKind::Literal(Literal::Int(_))
}

/// `r` is `t` with each bound type parameter replaced by a copy of its binding (the first
/// binding of a name counts).
pub open spec fn substituted(r: Type, t: Type, b: Seq<(String, Type)>) -> bool
    decreases t,
{
    match t {
        Type::TypeParam(n) => match pair_index(b, n@) {
            Some(i) => type_same(r, b[i].1),
            None => type_same(r, t),
        },
        Type::Ref { mutable, inner } => r matches Type::Ref { mutable: m2, inner: i2 } && m2 == mutable && substituted(*i2, *inner, b),
        Type::Slice(inner) => r matches Type::Slice(i2) && substituted(*i2, *inner, b),
        Type::Privacy(inner, tag) => r matches Type::Privacy(i2, t2) && substituted(*i2, *inner, b) && privacy_tag_same(t2, tag),
        Type::Generic(n, args) => r matches Type::Generic(n2, a2) && n2@ == n@ && a2@.len() == args@.len()
            && forall|k: int| 0 <= k < args@.len() ==> substituted(#[trigger] a2@[k], args@[k], b),
        Type::Tensor { dtype, shape } => r matches Type::Tensor { dtype: d2, shape: s2 } && substituted(*d2, *dtype, b)
            && s2@.len() == shape@.len() && forall|k: int| 0 <= k < shape@.len() ==> shape_dim_same(#[trigger] s2@[k], shape@[k]),
        _ => type_same(r, t),
    }
}

/// Every type parameter in `t` has a binding in `b`.
pub open spec fn params_bound(t: Type, b: Seq<(String, Type)>) -> bool
    decreases t,
{
    match t {
        Type::TypeParam(n) => pair_index(b, n@) is Some,
        Type::Ref { inner, .. } => params_bound(*inner, b),
        Type::Slice(inner) => params_bound(*inner, b),
        Type::Privacy(inner, _) => params_bound(*inner, b),
        Type::Generic(_, args) => forall|k: int| 0 <= k < args@.len() ==> params_bound(#[trigger] args@[k], b),
        Type::Tensor { dtype, .. } => params_bound(*dtype, b),
        _ => true,
    }
}

/// `s` and `a` are the same type once privacy labels are set aside (at any depth): equal
/// in structure and names, or equal as the checker compares types.
pub open spec fn agrees(s: Type, a: Type) -> bool
    decreases s, a,
{
    if type_same(s, a) || types_eq(s, a) {
        true
    } else {
        match (s, a) {
            (Type::Privacy(i, _), _) => agrees(*i, a),
            (_, Type::Privacy(i, _)) => agrees(s, *i),
            (Type::Generic(n1, x1), Type::Generic(n2, x2)) => n1@ == n2@ && x1@.len() == x2@.len()
                && forall|k: int| 0 <= k < x1@.len() ==> agrees(#[trigger] x1@[k], x2@[k]),
            (Type::Ref { mutable: m1, inner: i1 }, Type::Ref { mutable: m2, inner: i2 }) => m1 == m2 && agrees(*i1, *i2),
            (Type::Slice(i1), Type::Slice(i2)) => agrees(*i1, *i2),
            (Type::Tensor { dtype: d1, shape: s1 }, Type::Tensor { dtype: d2, shape: s2 }) => agrees(*d1, *d2)
                && s1@.len() == s2@.len() && forall|k: int| 0 <= k < s1@.len() ==> shape_dim_same(#[trigger] s1@[k], s2@[k]),
            _ => false,
        }
    }
}

proof fn lemma_pair_index_extends(b2: Seq<(String, Type)>, b1: Seq<(String, Type)>, n: Seq<char>)
    requires
        extends(b2, b1),
        pair_index(b1, n) is Some,
    ensures
        pair_index(b2, n) == pair_index(b1, n),
    decreases b2.len(),
{
    if b2.len() > b1.len() {
        assert(extends(b2.drop_last(), b1));
        lemma_pair_index_extends(b2.drop_last(), b1, n);
    } else {
        assert(b2 =~= b1);
    }
}

proof fn lemma_params_bound_generic(n: String, args: Vec<Type>, b: Seq<(String, Type)>)
    requires
        forall|q: int| 0 <= q < args@.len() ==> #[trigger] params_bound(args@[q], b),
    ensures
        params_bound(Type::Generic(n, args), b),
{
    let t = Type::Generic(n, args);
    assert(t matches Type::Generic(_, a2) && a2@ == args@);
    assert(forall|k: int| 0 <= k < args@.len() ==> params_bound(#[trigger] args@[k], b));
}

proof fn lemma_params_bound_extends(t: Type, b1: Seq<(String, Type)>, b2: Seq<(String, Type)>)
    requires
        params_bound(t, b1),
        extends(b2, b1),
    ensures
        params_bound(t, b2),
    decreases t,
{
    match t {
        Type::TypeParam(n) => { lemma_pair_index_extends(b2, b1, n@); },
        Type::Ref { inner, .. } => { lemma_params_bound_extends(*inner, b1, b2); },
        Type::Slice(inner) => { lemma_params_bound_extends(*inner, b1, b2); },
        Type::Privacy(inner, _) => { lemma_params_bound_extends(*inner, b1, b2); },
        Type::Generic(_, args) => {
            assert forall|k: int| 0 <= k < args@.len() implies params_bound(#[trigger] args@[k], b2) by {
                assert(decreases_to!(args => args[k]));
                lemma_params_bound_extends(args@[k], b1, b2);
            }
        },
        Type::Tensor { dtype, .. } => { lemma_params_bound_extends(*dtype, b1, b2); },
        _ => {},
    }
}

proof fn lemma_substituted_stable(s: Type, t: Type, b1: Seq<(String, Type)>, b2: Seq<(String, Type)>)
    requires
        params_bound(t, b1),
        extends(b2, b1),
        substituted(s, t, b2),
    ensures
        substituted(s, t, b1),
    decreases t,
{
    match t {
        Type::TypeParam(n) => {
            lemma_pair_index_extends(b2, b1, n@);
            lemma_pair_index_range(b1, n@);
        },
        Type::Ref { inner, .. } => {
            if let Type::Ref { inner: i2, .. } = s { lemma_substituted_stable(*i2, *inner, b1, b2); }
        },
        Type::Slice(inner) => {
            if let Type::Slice(i2) = s { lemma_substituted_stable(*i2, *inner, b1, b2); }
        },
        Type::Privacy(inner, _) => {
            if let Type::Privacy(i2, _) = s { lemma_substituted_stable(*i2, *inner, b1, b2); }
        },
        Type::Generic(_, args) => {
            if let Type::Generic(_, a2) = s {
                assert forall|k: int| 0 <= k < args@.len() implies substituted(#[trigger] a2@[k], args@[k], b1) by {
                    assert(decreases_to!(args => args[k]));
                    lemma_substituted_stable(a2@[k], args@[k], b1, b2);
                }
            }
        },
        Type::Tensor { dtype, .. } => {
            if let Type::Tensor { dtype: d2, .. } = s { lemma_substituted_stable(*d2, *dtype, b1, b2); }
        },
        _ => {},
    }
}

proof fn lemma_pair_index_range(b: Seq<(String, Type)>, n: Seq<char>)
    ensures
        pair_index(b, n) matches Some(i) ==> 0 <= i < b.len() && b[i].0@ == n,
    decreases b.len(),
{
    if b.len() > 0 {
        lemma_pair_index_range(b.drop_last(), n);
    }
}

/// A privacy label on the right is ignored by [`types_eq`].
proof fn lemma_types_eq_right_label(p: Type, q: Type, tag: PrivacyTag)
    ensures
        types_eq(p, Type::Privacy(Box::new(q), tag)) == types_eq(p, q),
    decreases p,
{
    if let Type::Privacy(pi, _) = p {
        if let Type::Privacy(qi, t2) = q {
            lemma_types_eq_right_label(*pi, *qi, t2);
        }
    }
}

/// A privacy label on the left is ignored by [`types_eq`].
proof fn lemma_types_eq_left_label(p: Type, q: Type, tag: PrivacyTag)
    ensures
        types_eq(Type::Privacy(Box::new(p), tag), q) == types_eq(p, q),
{
    if let Type::Privacy(qi, t2) = q {
        lemma_types_eq_right_label(p, *qi, t2);
    }
}

proof fn lemma_types_eq_unstrip(x: Type, a: Type)
    requires
        types_eq(x, stripped(a)),
    ensures
        types_eq(x, a),
    decreases x, a,
{
    match a {
        Type::Privacy(i, t) => {
            lemma_types_eq_unstrip(x, *i);
            lemma_types_eq_right_label(x, *i, t);
            assert(a == Type::Privacy(Box::new(*i), t));
        },
        Type::Ref { mutable, inner } => {
            match x {
                Type::Ref { inner: xi, .. } => { lemma_types_eq_unstrip(*xi, *inner); },
                Type::Privacy(xi, t) => {
                    lemma_types_eq_left_label(*xi, stripped(a), t);
                    assert(x == Type::Privacy(Box::new(*xi), t));
                    lemma_types_eq_unstrip(*xi, a);
                    lemma_types_eq_left_label(*xi, a, t);
                },
                _ => {},
            }
        },
        _ => {},
    }
}

/// What agrees with `i` agrees with `i` under a privacy label.
proof fn lemma_agrees_label(x: Type, i: Type, tag: PrivacyTag)
    requires
        agrees(x, i),
    ensures
        agrees(x, Type::Privacy(Box::new(i), tag)),
    decreases x,
{
    let a = Type::Privacy(Box::new(i), tag);
    if types_eq(x, i) {
        lemma_types_eq_right_label(x, i, tag);
    } else if let Type::Privacy(xi, t) = x {
        assert(x == Type::Privacy(Box::new(*xi), t));
        if type_same(x, i) {
            if let Type::Privacy(ii, t2) = i {
                assert(type_same(*xi, *ii));
                assert(agrees(*xi, *ii));
                lemma_agrees_label(*xi, *ii, t2);
                assert(i == Type::Privacy(Box::new(*ii), t2));
                lemma_agrees_label(*xi, i, tag);
            }
        } else {
            assert(agrees(*xi, i));
            lemma_agrees_label(*xi, i, tag);
        }
    }
}

/// Agreement carries over to a type of the same structure and names.
proof fn lemma_agrees_same_right(x: Type, y: Type, z: Type)
    requires
        agrees(x, y),
        type_same(y, z),
    ensures
        agrees(x, z),
    decreases x, y,
{
    if type_same(x, y) {
        crate::properties::lemma_type_same_transitive(x, y, z);
    } else if types_eq(x, y) {
        lemma_type_same_refl(x);
        lemma_types_eq_respects(x, x, y, z);
    } else {
        match (x, y) {
            (Type::Privacy(i, _), _) => {
                lemma_agrees_same_right(*i, y, z);
            },
            (_, Type::Privacy(yi, _)) => {
                if let Type::Privacy(zi, _) = z {
                    lemma_agrees_same_right(x, *yi, *zi);
                }
            },
            (Type::Generic(_, x1), Type::Generic(_, y1)) => {
                if let Type::Generic(_, z1) = z {
                    assert forall|k: int| 0 <= k < x1@.len() implies agrees(#[trigger] x1@[k], z1@[k]) by {
                        assert(decreases_to!(x1 => x1[k]));
                        lemma_agrees_same_right(x1@[k], y1@[k], z1@[k]);
                    }
                }
            },
            (Type::Ref { inner: xi, .. }, Type::Ref { inner: yi, .. }) => {
                if let Type::Ref { inner: zi, .. } = z {
                    lemma_agrees_same_right(*xi, *yi, *zi);
                }
            },
            (Type::Slice(xi), Type::Slice(yi)) => {
                if let Type::Slice(zi) = z {
                    lemma_agrees_same_right(*xi, *yi, *zi);
                }
            },
            (Type::Tensor { dtype: xd, .. }, Type::Tensor { dtype: yd, .. }) => {
                if let Type::Tensor { dtype: zd, .. } = z {
                    lemma_agrees_same_right(*xd, *yd, *zd);
                }
            },
            _ => {},
        }
    }
}

proof fn lemma_agrees_unstrip(x: Type, a: Type)
    requires
        agrees(x, stripped(a)),
    ensures
        agrees(x, a),
    decreases x, a,
{
    if types_eq(x, stripped(a)) {
        lemma_types_eq_unstrip(x, a);
    } else {
        match a {
            Type::Privacy(i, t) => {
                lemma_agrees_unstrip(x, *i);
                lemma_agrees_label(x, *i, t);
                assert(a == Type::Privacy(Box::new(*i), t));
            },
            Type::Ref { mutable, inner } => {
                match x {
                    Type::Ref { inner: xi, .. } => {
                        if type_same(x, stripped(a)) {
                            assert(type_same(*xi, stripped(*inner)));
                        }
                        lemma_agrees_unstrip(*xi, *inner);
                    },
                    Type::Privacy(xi, _) => {
                        if type_same(x, stripped(a)) {
                        } else {
                            lemma_agrees_unstrip(*xi, a);
                        }
                    },
                    _ => {},
                }
            },
            _ => {},
        }
    }
}

/// Bindings that extend `old`: its entries kept in place, new ones after them.
pub open spec fn extends(new: Seq<(String, Type)>, old: Seq<(String, Type)>) -> bool {
    &&& old.len() <= new.len()
    &&& forall|k: int| 0 <= k < old.len() ==> #[trigger] new[k] == old[k]
}

} // verus!

verus! {

/// `(a, b)` compared by [`types_eq`], tags compared by [`tags_eq`] where both sides carry one.
pub open spec fn types_eq_privacy(a: Type, b: Type) -> bool {
    match (a, b) {
        (Type::Privacy(i1, t1), Type::Privacy(i2, t2)) => types_eq(*i1, *i2) && tags_eq(t1, t2),
        (Type::Privacy(i, _), _) => types_eq(*i, b),
        (_, Type::Privacy(i, _)) => types_eq(a, *i),
        _ => types_eq(a, b),
    }
}

/// Index of the first entry named `name` in a list of name/value pairs.
pub open spec fn pair_index<V>(v: Seq<(String, V)>, name: Seq<char>) -> Option<int>
    decreases v.len(),
{
    if v.len() == 0 {
        None
    } else {
        match pair_index(v.drop_last(), name) {
            Some(i) => Some(i),
            None => if v.last().0@ == name { Some(v.len() - 1) } else { None },
        }
    }
}

/// An expression that the checker accepts as a compile-time constant: a literal, a symbolic
/// dimension, a named constant, `-` of a constant, an operation on constants, or `lack &[T]`.
pub open spec fn compile_time_constant(e: Expr, consts: Seq<(String, Type)>) -> bool
    decreases e,
{
    match e.kind {
        ExprKind::Literal(_) => true,
        ExprKind::Sym(_) => true,
        ExprKind::Ident(n) => pair_index(consts, n@) is Some,
        ExprKind::BinaryOp { left, right, .. } => compile_time_constant(*left, consts) && compile_time_constant(*right, consts),
        ExprKind::Unary { op: UnaryOp::Neg, expr } => compile_time_constant(*expr, consts),
        ExprKind::LackSlice(_) => true,
        _ => false,
    }
}

/// Division rounding toward zero.
pub open spec fn trunc_div(l: int, r: int) -> int {
    let q = (if l >= 0 { l } else { -l }) / (if r >= 0 { r } else { -r });
    if (l >= 0) == (r >= 0) { q } else { -q }
}

pub open spec fn in_i64(v: int) -> bool {
    i64::MIN <= v <= i64::MAX
}

/// The value of an integer constant expression: literals, `-`, `+ - * /` (division by zero
/// gives none); `None` also where a step leaves the range of `i64`.
pub open spec fn const_int_value(e: Expr) -> Option<int>
    decreases e,
{
    match e.kind {
        ExprKind::Literal(Literal::Int(v)) => Some(v as int),
        ExprKind::Unary { op: UnaryOp::Neg, expr } => match const_int_value(*expr) {
            Some(v) => if in_i64(-v) { Some(-v) } else { None },
            None => None,
        },
        ExprKind::BinaryOp { op, left, right } => match (const_int_value(*left), const_int_value(*right)) {
            (Some(l), Some(r)) => {
                let v = match op {
                    BinaryOp::Add => Some(l + r),
                    BinaryOp::Sub => Some(l - r),
                    BinaryOp::Mul => Some(l * r),
                    BinaryOp::Div => if r == 0 { None } else { Some(trunc_div(l, r)) },
                    _ => None,
                };
                match v {
                    Some(x) => if in_i64(x) { Some(x) } else { None },
                    None => None,
                }
            },
            _ => None,
        },
        _ => None,
    }
}

fn is_bool_type(t: &Type) -> (r: bool)
    ensures
        r == (*t is Bool),
{
    match t {
        Type::Bool => true,
        _ => false,
    }
}

fn is_unit_type(t: &Type) -> (r: bool)
    ensures
        r == (*t is Unit),
{
    match t {
        Type::Unit => true,
        _ => false,
    }
}

fn is_str_type(t: &Type) -> (r: bool)
    ensures
        r == (*t is Str),
{
    match t {
        Type::Str => true,
        _ => false,
    }
}

fn shape_eq(a: &Vec<ShapeDim>, b: &Vec<ShapeDim>) -> (r: bool)
    ensures
        r == (a@.len() == b@.len() && forall|k: int| 0 <= k < a@.len() ==> shape_dim_same(#[trigger] a@[k], b@[k])),
{
    if a.len() != b.len() {
        return false;
    }
    let mut k: usize = 0;
    while k < a.len()
        invariant
            a@.len() == b@.len(),
            k <= a@.len(),
            forall|j: int| 0 <= j < k ==> shape_dim_same(#[trigger] a@[j], b@[j]),
        decreases a.len() - k,
    {
        if !dim_eq(&a[k], &b[k]) {
            return false;
        }
        k += 1;
    }
    true
}

fn dim_eq(x: &ShapeDim, y: &ShapeDim) -> (r: bool)
    ensures
        r == shape_dim_same(*x, *y),
{
    match (x, y) {
        (ShapeDim::Const(p), ShapeDim::Const(q)) => *p == *q,
        (ShapeDim::Sym(p), ShapeDim::Sym(q)) => str_eq(p.as_str(), q.as_str()),
        (ShapeDim::Dyn, ShapeDim::Dyn) => true,
        _ => false,
    }
}

fn ints_eq(a: &Vec<i64>, b: &Vec<i64>) -> (r: bool)
    ensures
        r == (a@ == b@),
{
    if a.len() != b.len() {
        return false;
    }
    let mut k: usize = 0;
    while k < a.len()
        invariant
            a@.len() == b@.len(),
            k <= a@.len(),
            forall|j: int| 0 <= j < k ==> a@[j] == b@[j],
        decreases a.len() - k,
    {
        if a[k] != b[k] {
            return false;
        }
        k += 1;
    }
    assert(a@ =~= b@);
    true
}

impl TypeChecker {
    /// A checker with one empty scope and empty tables.
    pub fn new() -> (r: TypeChecker)
        ensures
            r.wf(),
            r.scope_count() == 1,
            r.recorded_types() == Map::<usize, Type>::empty(),
    {
        let mut scopes: Vec<Vec<(String, Type)>> = Vec::new();
        scopes.push(Vec::new());
        TypeChecker {
            scopes,
            structs: Vec::new(),
            enums: Vec::new(),
            consts: Vec::new(),
            functions: Vec::new(),
            methods: Vec::new(),
            in_model: false,
            fn_stack: Vec::new(),
            model_names: Vec::new(),
            model_return_types: Vec::new(),
            model_sensitivities: Vec::new(),
            current_self_type: None,
            current_return_type: None,
            expr_types: HashMap::new(),
        }
    }

    /// The checker always has a scope to declare names in.
    pub closed spec fn wf(&self) -> bool {
        self.scopes@.len() >= 1
    }

    /// The struct definitions, models' included, in the order they were declared.
    pub closed spec fn struct_defs(&self) -> Seq<StructDef> {
        self.structs@
    }

    /// The type of the variable `name` in scope: from the innermost scope that declares it.
    pub closed spec fn var_type(&self, name: Seq<char>) -> Option<Type> {
        scope_lookup(self.scopes@, name)
    }

    /// The type of the constant `name`, where one is declared.
    pub closed spec fn const_type(&self, name: Seq<char>) -> Option<Type> {
        match pair_index(self.consts@, name) {
            Some(i) => Some(self.consts@[i].1),
            None => None,
        }
    }

    /// What checking the name `name` gives: `self` in a method is the self type; otherwise
    /// the variable in scope, else the constant, else an error.
    pub open spec fn name_result(&self, name: Seq<char>, r: Result<Type, String>) -> bool {
        if name == "self"@ && self.self_type() is Some {
            r matches Ok(t) && type_same(t, self.self_type()->0)
        } else {
            match self.var_type(name) {
                Some(t) => r matches Ok(u) && type_same(u, t),
                None => match self.const_type(name) {
                    Some(t) => r matches Ok(u) && type_same(u, t),
                    None => r matches Err(m) && m@ == "undefined variable or constant: "@ + name,
                },
            }
        }
    }

    /// `name` is neither `self` in a method, nor a variable in scope, nor a constant.
    pub open spec fn undefined_name(&self, name: Seq<char>) -> bool {
        &&& !(name == "self"@ && self.self_type() is Some)
        &&& self.var_type(name) is None
        &&& self.const_type(name) is None
    }

    /// The type of an operand that is a literal, or a variable (not `self`) of a plain type.
    pub open spec fn atom_type(&self, e: Expr) -> Option<Type> {
        match e.kind {
            ExprKind::Literal(l) => Some(literal_type(l)),
            ExprKind::Ident(n) => if n@ != "self"@ && (self.var_type(n@) matches Some(t) && is_plain(t)) {
                self.var_type(n@)
            } else {
                None
            },
            _ => None,
        }
    }

    /// The type that `self` has in the method being checked.
    pub closed spec fn self_type(&self) -> Option<Type> {
        self.current_self_type
    }

    /// The named constants with their types, in the order they were declared.
    pub closed spec fn const_table(&self) -> Seq<(String, Type)> {
        self.consts@
    }

    /// Whether `n` is the name of a model.
    pub closed spec fn is_model(&self, n: Seq<char>) -> bool {
        string_views(self.model_names@).contains(n)
    }

    /// The enum definitions, in the order they were declared.
    pub closed spec fn enum_defs(&self) -> Seq<EnumDef> {
        self.enums@
    }

    /// The return types of the models' `forward` functions, by model name.
    pub closed spec fn model_returns(&self) -> Seq<(String, Type)> {
        self.model_return_types@
    }

    /// The names of the functions being checked, outermost first.
    pub closed spec fn active_fns(&self) -> Seq<Seq<char>> {
        string_views(self.fn_stack@)
    }

    /// Whether the functions of a model are being checked.
    pub closed spec fn checking_model(&self) -> bool {
        self.in_model
    }

    /// Number of open scopes.
    pub closed spec fn scope_count(&self) -> int {
        self.scopes@.len() as int
    }

    /// The type recorded for each expression id that was checked.
    pub closed spec fn recorded_types(&self) -> Map<usize, Type> {
        self.expr_types@
    }

    /// The key under which methods of an implement block for `ty` are filed: the name of a
    /// struct, enum or generic type.
    fn type_key_for_impl_target(ty: &Type) -> (r: Option<String>)
        ensures
            match *ty {
                Type::Struct(n) => r matches Some(k) && k@ == n@,
                Type::Enum(n) => r matches Some(k) && k@ == n@,
                Type::Generic(n, _) => r matches Some(k) && k@ == n@,
                _ => r is None,
            },
    {
        match ty {
            Type::Struct(name) => Some(name.clone()),
            Type::Enum(name) => Some(name.clone()),
            Type::Generic(name, _) => Some(name.clone()),
            _ => None,
        }
    }

    /// Type equality (see [`types_eq`]).
    #[verifier::loop_isolation(false)]
    fn types_equal(&self, a: &Type, b: &Type) -> (r: bool)
        ensures
            r == types_eq(*a, *b),
        decreases a, b,
    {
        match (a, b) {
            (Type::I8, Type::I8) => true,
            (Type::I16, Type::I16) => true,
            (Type::I32, Type::I32) => true,
            (Type::I64, Type::I64) => true,
            (Type::I128, Type::I128) => true,
            (Type::U8, Type::U8) => true,
            (Type::U16, Type::U16) => true,
            (Type::U32, Type::U32) => true,
            (Type::U64, Type::U64) => true,
            (Type::U128, Type::U128) => true,
            (Type::F16, Type::F16) => true,
            (Type::F32, Type::F32) => true,
            (Type::F64, Type::F64) => true,
            (Type::Bool, Type::Bool) => true,
            (Type::Char, Type::Char) => true,
            (Type::Str, Type::Str) => true,
            (Type::Unit, Type::Unit) => true,
            (Type::Struct(n1), Type::Struct(n2)) => str_eq(n1.as_str(), n2.as_str()),
            (Type::Enum(n1), Type::Enum(n2)) => str_eq(n1.as_str(), n2.as_str()),
            (Type::Generic(n1, a1), Type::Generic(n2, a2)) => {
                if !str_eq(n1.as_str(), n2.as_str()) {
                    return false;
                }
                if a1.len() != a2.len() {
                    return false;
                }
                let mut k: usize = 0;
                while k < a1.len()
                    invariant
                        k <= a1@.len(),
                        a1@.len() == a2@.len(),
                        forall|j: int| 0 <= j < k ==> types_eq(#[trigger] a1@[j], a2@[j]),
                    decreases a1.len() - k,
                {
                    proof {
                        broadcast use vstd::std_specs::vec::axiom_vec_index_decreases;
                        assert(decreases_to!(*a1 => a1[k as int]));
                    }
                    if !self.types_equal(&a1[k], &a2[k]) {
                        return false;
                    }
                    k += 1;
                }
                true
            },
            (Type::Ref { mutable: m1, inner: i1 }, Type::Ref { mutable: m2, inner: i2 }) =>
                *m1 == *m2 && self.types_equal(i1, i2),
            (Type::Slice(t1), Type::Slice(t2)) => self.types_equal(t1, t2),
            (Type::Tensor { dtype: d1, shape: s1 }, Type::Tensor { dtype: d2, shape: s2 }) => {
                if !self.types_equal(d1, d2) {
                    return false;
                }
                shape_eq(s1, s2)
            },
            (Type::ConstIntArray(v1), Type::ConstIntArray(v2)) => ints_eq(v1, v2),
            (Type::Privacy(i1, _), Type::Privacy(i2, _)) => self.types_equal(i1, i2),
            (Type::Privacy(i, _), _) => self.types_equal(i, b),
            (_, Type::Privacy(i, _)) => self.types_equal(a, i),
            (Type::TypeParam(n1), Type::TypeParam(n2)) => str_eq(n1.as_str(), n2.as_str()),
            _ => false,
        }
    }

    /// Type equality that also compares privacy tags where both sides carry one.
    fn types_equal_with_privacy(&self, a: &Type, b: &Type) -> (r: bool)
        ensures
            r == types_eq_privacy(*a, *b),
    {
        match (a, b) {
            (Type::Privacy(i1, t1), Type::Privacy(i2, t2)) => self.types_equal(i1, i2) && self.privacy_tags_equal(t1, t2),
            (Type::Privacy(i, _), _) => self.types_equal(i, b),
            (_, Type::Privacy(i, _)) => self.types_equal(a, i),
            _ => self.types_equal(a, b),
        }
    }

    /// Privacy-tag equality (see [`tags_eq`]).
    fn privacy_tags_equal(&self, a: &PrivacyTag, b: &PrivacyTag) -> (r: bool)
        ensures
            r == tags_eq(*a, *b),
    {
        match (a, b) {
            (PrivacyTag::Public, PrivacyTag::Public) => true,
            (PrivacyTag::Private, PrivacyTag::Private) => true,
            (PrivacyTag::Differential { eps: e1, delta: d1 }, PrivacyTag::Differential { eps: e2, delta: d2 }) => {
                rational_eq(e1.as_str(), e2.as_str()) && match (d1, d2) {
                    (Some(x), Some(y)) => rational_eq(x.as_str(), y.as_str()),
                    (None, None) => true,
                    _ => false,
                }
            },
            _ => false,
        }
    }

    /// The join of two privacy tags (see [`joined_tag`]).
    fn join_privacy_tags(&self, a: &PrivacyTag, b: &PrivacyTag) -> (r: PrivacyTag)
        ensures
            joined_tag(*a, *b, r),
    {
        match (a, b) {
            (PrivacyTag::Public, x) => copy_privacy_tag(x),
            (x, PrivacyTag::Public) => copy_privacy_tag(x),
            (PrivacyTag::Private, _) => PrivacyTag::Private,
            (_, PrivacyTag::Private) => PrivacyTag::Private,
            (PrivacyTag::Differential { eps: e1, delta: d1 }, PrivacyTag::Differential { eps: e2, delta: d2 }) => {
                let eps = rational_min(e1.as_str(), e2.as_str());
                let delta = match (d1, d2) {
                    (Some(x), Some(y)) => if rational_le(x.as_str(), y.as_str()) { Some(y.clone()) } else { Some(x.clone()) },
                    (Some(x), None) => Some(x.clone()),
                    (None, Some(y)) => Some(y.clone()),
                    (None, None) => None,
                };
                PrivacyTag::Differential { eps, delta }
            },
        }
    }

    /// The privacy tag of a type, also under references.
    fn extract_privacy_tag(&self, ty: &Type) -> (r: Option<PrivacyTag>)
        ensures
            opt_tag_same(r, privacy_of(*ty)),
        decreases ty,
    {
        match ty {
            Type::Privacy(_, tag) => Some(copy_privacy_tag(tag)),
            Type::Ref { inner, .. } => self.extract_privacy_tag(inner),
            _ => None,
        }
    }

    /// `ty` with the tag `tag`, where there is one.
    fn apply_privacy_tag(&self, ty: Type, tag: Option<PrivacyTag>) -> (r: Type)
        ensures
            match tag {
                Some(t) => r == Type::Privacy(Box::new(ty), t),
                None => r == ty,
            },
    {
        match tag {
            Some(t) => Type::Privacy(Box::new(ty), t),
            None => ty,
        }
    }

    /// The join of the privacy labels of two types (see [`joined_label`]).
    fn join_privacy_labels(&self, a: &Type, b: &Type) -> (r: Option<PrivacyTag>)
        ensures
            joined_label(*a, *b, r),
    {
        let tag_a = self.extract_privacy_tag(a);
        let tag_b = self.extract_privacy_tag(b);
        match (tag_a, tag_b) {
            (Some(t1), Some(t2)) => {
                let j = self.join_privacy_tags(&t1, &t2);
                proof {
                    lemma_joined_tag_respects(t1, t2, privacy_of(*a)->Some_0, privacy_of(*b)->Some_0, j);
                }
                Some(j)
            },
            (Some(t), None) => Some(t),
            (None, Some(t)) => Some(t),
            (None, None) => None,
        }
    }

    /// The type without privacy tags (see [`stripped`]).
    fn strip_privacy(&self, ty: &Type) -> (r: Type)
        ensures
            type_same(r, stripped(*ty)),
        decreases ty,
    {
        match ty {
            Type::Privacy(inner, _) => self.strip_privacy(inner),
            Type::Ref { mutable, inner } => Type::Ref { mutable: *mutable, inner: Box::new(self.strip_privacy(inner)) },
            _ => {
                proof {
                    lemma_type_same_refl(*ty);
                }
                copy_type(ty)
            },
        }
    }

    /// The type under any references.
    fn strip_ref(&self, ty: &Type) -> (r: Type)
        ensures
            type_same(r, deref_all(*ty)),
        decreases ty,
    {
        match ty {
            Type::Ref { inner, .. } => self.strip_ref(inner),
            other => copy_type(other),
        }
    }

    /// Result type of the methods that primitive types carry: `str.len()` is `u64`,
    /// `str.is_empty()` is `bool`, `str.as_bytes()` is `&[u8]`, and `abs()` of a signed
    /// number has the receiver's type.
    fn builtin_primitive_method_return_type(&self, receiver: &Type, method: &str) -> (r: Option<Type>)
        ensures
            if *receiver is Str && method@ == "len"@ {
                r == Some(Type::U64)
            } else if *receiver is Str && method@ == "is_empty"@ {
                r == Some(Type::Bool)
            } else if *receiver is Str && method@ == "as_bytes"@ {
                r matches Some(t) && t matches Type::Ref { mutable: false, inner }
                    && (*inner matches Type::Slice(e) && *e == Type::U8)
            } else if method@ == "abs"@ && is_signed_numeric(*receiver) {
                r matches Some(t) && type_same(t, *receiver)
            } else {
                r is None
            },
    {
        let is_str = is_str_type(receiver);
        if is_str && str_eq(method, "len") {
            Some(Type::U64)
        } else if is_str && str_eq(method, "is_empty") {
            Some(Type::Bool)
        } else if is_str && str_eq(method, "as_bytes") {
            Some(Type::Ref { mutable: false, inner: Box::new(Type::Slice(Box::new(Type::U8))) })
        } else if str_eq(method, "abs") && self.is_signed_numeric_type(receiver) {
            Some(copy_type(receiver))
        } else {
            None
        }
    }

    /// Whether `expr` is a compile-time constant (see [`compile_time_constant`]).
    fn is_compile_time_constant(&self, expr: &Expr) -> (r: bool)
        ensures
            r == compile_time_constant(*expr, self.consts@),
        decreases expr,
    {
        match &expr.kind {
            ExprKind::Literal(_) => true,
            ExprKind::Sym(_) => true,
            ExprKind::Ident(name) => self.find_const(name).is_some(),
            ExprKind::BinaryOp { left, right, .. } =>
                self.is_compile_time_constant(left) && self.is_compile_time_constant(right),
            ExprKind::Unary { op: UnaryOp::Neg, expr: inner } => self.is_compile_time_constant(inner),
            ExprKind::LackSlice(_) => true,
            _ => false,
        }
    }

    /// Value of an integer constant expression (see [`const_int_value`]).
    fn eval_const_int_expr(&self, expr: &Expr) -> (r: Option<i64>)
        ensures
            match const_int_value(*expr) {
                Some(v) => r == Some(v as i64),
                None => r is None,
            },
            r matches Some(v) ==> const_int_value(*expr) == Some(v as int),
        decreases expr,
    {
        match &expr.kind {
            ExprKind::Literal(Literal::Int(v)) => Some(*v),
            ExprKind::Unary { op: UnaryOp::Neg, expr: inner } => {
                match self.eval_const_int_expr(inner) {
                    Some(v) => if v == i64::MIN { None } else { Some(-v) },
                    None => None,
                }
            },
            ExprKind::BinaryOp { op, left, right } => {
                let l = match self.eval_const_int_expr(left) {
                    Some(v) => v,
                    None => return None,
                };
                let r = match self.eval_const_int_expr(right) {
                    Some(v) => v,
                    None => return None,
                };
                match op {
                    BinaryOp::Add => l.checked_add(r),
                    BinaryOp::Sub => l.checked_sub(r),
                    BinaryOp::Mul => l.checked_mul(r),
                    BinaryOp::Div => if r == 0 { None } else { trunc_div_i64(l, r) },
                    _ => None,
                }
            },
            _ => None,
        }
    }

    /// A constant dimension as an `i64`.
    fn shape_dim_to_i64(&self, dim: &ShapeDim) -> (r: Result<i64, String>)
        ensures
            match *dim {
                ShapeDim::Const(c) => r == Ok::<i64, String>(c as i64),
                _ => r is Err,
            },
    {
        match dim {
            ShapeDim::Const(c) => Ok(*c as i64),
            _ => Err("expected constant dimension".to_string()),
        }
    }

    fn is_numeric_type(&self, ty: &Type) -> (r: bool)
        ensures
            r == is_numeric(*ty),
    {
        match ty {
            Type::I8 | Type::I16 | Type::I32 | Type::I64 | Type::I128 | Type::U8 | Type::U16 | Type::U32
            | Type::U64 | Type::U128 | Type::F16 | Type::F32 | Type::F64 => true,
            _ => false,
        }
    }

    fn is_signed_numeric_type(&self, ty: &Type) -> (r: bool)
        ensures
            r == is_signed_numeric(*ty),
    {
        match ty {
            Type::I8 | Type::I16 | Type::I32 | Type::I64 | Type::I128 | Type::F16 | Type::F32 | Type::F64 => true,
            _ => false,
        }
    }

    fn is_integer_type(&self, ty: &Type) -> (r: bool)
        ensures
            r == is_integer(*ty),
    {
        match ty {
            Type::I8 | Type::I16 | Type::I32 | Type::I64 | Type::I128 | Type::U8 | Type::U16 | Type::U32
            | Type::U64 | Type::U128 => true,
            _ => false,
        }
    }

    /// Whether an expression names a place that can be assigned: a variable, a field or an
    /// indexed element.
    fn is_assignable(&self, expr: &Expr) -> (r: bool)
        ensures
            r == (expr.kind is Ident || expr.kind is FieldAccess || expr.kind is Index),
    {
        match &expr.kind {
            ExprKind::Ident(_) | ExprKind::FieldAccess { .. } | ExprKind::Index { .. } => true,
            _ => false,
        }
    }

    /// Index of the constant named `name`.
    fn find_const(&self, name: &String) -> (r: Option<usize>)
        ensures
            match pair_index(self.consts@, name@) {
                Some(i) => r == Some(i as usize),
                None => r is None,
            },
            r matches Some(i) ==> i < self.consts@.len() && pair_index(self.consts@, name@) == Some(i as int),
    {
        find_pair(&self.consts, name)
    }
}

/// Index of the first pair named `name`.
fn find_pair<V>(v: &Vec<(String, V)>, name: &String) -> (r: Option<usize>)
    ensures
        r matches Some(j) ==> j < v@.len() && v@[j as int].0@ == name@,
        match pair_index(v@, name@) {
            Some(i) => r == Some(i as usize),
            None => r is None,
        },
        r matches Some(i) ==> i < v@.len() && pair_index(v@, name@) == Some(i as int),
{
    let mut k: usize = 0;
    while k < v.len()
        invariant
            k <= v@.len(),
            pair_index(v@.take(k as int), name@) is None,
        decreases v.len() - k,
    {
        assert(v@.take(k as int + 1).drop_last() == v@.take(k as int));
        if str_eq(v[k].0.as_str(), name.as_str()) {
            proof {
                lemma_pair_index_prefix(v@, k as int + 1, name@);
            }
            return Some(k);
        }
        k += 1;
    }
    assert(v@.take(v@.len() as int) == v@);
    None
}

proof fn lemma_pair_index_prefix<V>(v: Seq<(String, V)>, n: int, name: Seq<char>)
    requires
        0 < n <= v.len(),
        pair_index(v.take(n - 1), name) is None,
        v[n - 1].0@ == name,
    ensures
        pair_index(v, name) == Some(n - 1),
    decreases v.len(),
{
    assert(v.take(n).drop_last() == v.take(n - 1));
    if n < v.len() {
        assert(v.drop_last().take(n) == v.take(n));
        assert(v.drop_last().take(n - 1) == v.take(n - 1));
        lemma_pair_index_prefix(v.drop_last(), n, name);
    } else {
        assert(v.take(n) == v);
        assert(v.drop_last() == v.take(n - 1));
    }
}

/// The type bound to `name` in a stack of scopes, innermost (last) first.
pub open spec fn scope_lookup(scopes: Seq<Vec<(String, Type)>>, name: Seq<char>) -> Option<Type>
    decreases scopes.len(),
{
    if scopes.len() == 0 {
        None
    } else {
        match pair_index(scopes.last()@, name) {
            Some(i) => Some(scopes.last()@[i].1),
            None => scope_lookup(scopes.drop_last(), name),
        }
    }
}

/// `l / r` rounded toward zero, where it fits `i64`.
fn trunc_div_i64(l: i64, r: i64) -> (q: Option<i64>)
    requires
        r != 0,
    ensures
        match q {
            Some(v) => in_i64(trunc_div(l as int, r as int)) && v == trunc_div(l as int, r as int),
            None => !in_i64(trunc_div(l as int, r as int)),
        },
{
    let la: u64 = if l >= 0 { l as u64 } else if l == i64::MIN { 0x8000_0000_0000_0000u64 } else { (-l) as u64 };
    let ra: u64 = if r >= 0 { r as u64 } else if r == i64::MIN { 0x8000_0000_0000_0000u64 } else { (-r) as u64 };
    let qa = la / ra;
    if (l >= 0) == (r >= 0) {
        if qa > i64::MAX as u64 { None } else { Some(qa as i64) }
    } else {
        if qa > 0x8000_0000_0000_0000u64 {
            None
        } else if qa == 0x8000_0000_0000_0000u64 {
            Some(i64::MIN)
        } else {
            Some(-(qa as i64))
        }
    }
}

proof fn lemma_type_same_refl(t: Type)
    ensures
        type_same(t, t),
    decreases t,
{
    match t {
        Type::Generic(_, args) => {
            assert forall|k: int| 0 <= k < args@.len() implies type_same(#[trigger] args@[k], args@[k]) by {
                lemma_type_same_refl(args@[k]);
            }
        },
        Type::Tensor { dtype, shape } => {
            lemma_type_same_refl(*dtype);
            assert forall|k: int| 0 <= k < shape@.len() implies shape_dim_same(#[trigger] shape@[k], shape@[k]) by {
                match shape@[k] {
                    _ => {},
                }
            }
        },
        Type::Privacy(inner, tag) => {
            lemma_type_same_refl(*inner);
            match tag {
                PrivacyTag::Differential { delta, .. } => {
                    match delta {
                        _ => {},
                    }
                },
                _ => {},
            }
        },
        Type::Ref { inner, .. } => lemma_type_same_refl(*inner),
        Type::Slice(inner) => lemma_type_same_refl(*inner),
        _ => {},
    }
}

/// Joining tags that are the same gives tags that are the same.
proof fn lemma_joined_tag_respects(a1: PrivacyTag, b1: PrivacyTag, a: PrivacyTag, b: PrivacyTag, r: PrivacyTag)
    requires
        privacy_tag_same(a1, a),
        privacy_tag_same(b1, b),
        joined_tag(a1, b1, r),
    ensures
        joined_tag(a, b, r),
{
}

} // verus!

verus! {

/// Whether the checker accepts `left op right` on operand types `left` and `right`
/// (`left_lit` / `right_lit`: the operand is an integer literal, which gives way to the
/// other side's numeric type).
pub open spec fn binop_ok(op: BinaryOp, left: Type, right: Type, left_lit: bool, right_lit: bool) -> bool {
    let l = stripped(left);
    let r = stripped(right);
    let both = is_numeric(l) && is_numeric(r);
    let compatible = types_eq(l, r) || (both && (left_lit || right_lit));
    match op {
        BinaryOp::Add | BinaryOp::Sub | BinaryOp::Mul | BinaryOp::Div | BinaryOp::Mod =>
            (both && compatible) || (l is Tensor && r is Tensor && types_eq(l, r)),
        BinaryOp::Eq | BinaryOp::Neq | BinaryOp::Lt | BinaryOp::Gt | BinaryOp::Le | BinaryOp::Ge => compatible,
        BinaryOp::And | BinaryOp::Or => l is Bool && r is Bool,
    }
}

/// The untagged result type of an accepted `left op right`.
pub open spec fn binop_base(op: BinaryOp, left: Type, right: Type, left_lit: bool) -> Type {
    let l = stripped(left);
    let r = stripped(right);
    match op {
        BinaryOp::Add | BinaryOp::Sub | BinaryOp::Mul | BinaryOp::Div | BinaryOp::Mod =>
            if types_eq(l, r) { l } else if left_lit { r } else { l },
        _ => Type::Bool,
    }
}

/// `t` is `base`, possibly under a privacy label.
pub open spec fn labeled_as(t: Type, base: Type) -> bool {
    type_same(t, base) || (t matches Type::Privacy(inner, _) && type_same(*inner, base))
}

/// `t` is what `op` gives on operands `l` and `r` of types `lt` and `rt`: the operands
/// are admitted, and the result is [`binop_base`] carrying the join of their labels.
pub open spec fn binop_typed(op: BinaryOp, l: Expr, r: Expr, lt: Type, rt: Type, t: Type) -> bool {
    &&& binop_ok(op, lt, rt, is_int_literal(l), is_int_literal(r))
    &&& labeled_joined(t, binop_base(op, lt, rt, is_int_literal(l)), lt, rt)
}

/// `t` is `base` carrying the join of the labels of `a` and `b`.
pub open spec fn labeled_joined(t: Type, base: Type, a: Type, b: Type) -> bool {
    if privacy_of(a) is None && privacy_of(b) is None {
        type_same(t, base)
    } else {
        t matches Type::Privacy(inner, u) && type_same(*inner, base) && joined_label(a, b, Some(u))
    }
}

/// A type written with one word and no parameters: a number type, `bool`, `char`, `str` or
/// `()`.
pub open spec fn is_plain(t: Type) -> bool {
    is_numeric(t) || t is Bool || t is Char || t is Str || t is Unit
}

/// The type that a literal initializer takes under the annotation `a`: an integer literal
/// takes a numeric annotation's type, any other literal keeps its own.
pub open spec fn literal_init_type(l: Literal, a: Type) -> Type {
    if l is Int && is_numeric(a) { a } else { literal_type(l) }
}

/// `let name: A = literal;` where `A` is plain, the literal fits `A`, and the binding is not
/// `persist`.
pub open spec fn simple_let(s: Stmt) -> bool {
    s matches Stmt::Let(l) && !l.persist && (l.ty matches Some(a) && is_plain(a)
        && (l.init.kind matches ExprKind::Literal(li) && types_eq(literal_init_type(li, a), a)))
}

/// A `let` with a plain annotation whose literal initializer does not have that type.
pub open spec fn mismatched_let(s: Stmt) -> bool {
    s matches Stmt::Let(l) && (l.ty matches Some(a) && is_plain(a)
        && (l.init.kind matches ExprKind::Literal(li) && !types_eq(literal_init_type(li, a), a)))
}

/// The error for a [`mismatched_let`].
pub open spec fn let_mismatch_message(s: Stmt) -> Seq<char> {
    match s {
        Stmt::Let(l) => match l.init.kind {
            ExprKind::Literal(li) => "type mismatch: expected "@ + type_text(let_annotation(s)) + ", got "@
                + type_text(literal_init_type(li, let_annotation(s))),
            _ => Seq::empty(),
        },
        _ => Seq::empty(),
    }
}

/// A function, not being checked already, whose body starts with a [`mismatched_let`].
pub open spec fn fn_with_mismatched_let(item: Item, active: Seq<Seq<char>>) -> bool {
    item matches Item::FnDef(f) && !active.contains(f.name@) && f.body.stmts@.len() > 0
        && mismatched_let(f.body.stmts@[0])
}

/// A function, or an implement block whose first function, is a [`fn_with_mismatched_let`].
pub open spec fn item_with_mismatched_let(item: Item, active: Seq<Seq<char>>) -> bool {
    match item {
        Item::FnDef(_) => fn_with_mismatched_let(item, active),
        Item::Implement(imp) => imp.functions@.len() > 0 && fn_with_mismatched_let(Item::FnDef(imp.functions@[0]), active),
        Item::ModelDef(m) => model_with_mismatched_let(m, active),
        _ => false,
    }
}

/// A model with `forward` whose first function takes no parameters and is a
/// [`fn_with_mismatched_let`].
pub open spec fn model_with_mismatched_let(m: ModelDef, active: Seq<Seq<char>>) -> bool {
    &&& fn_index(m.functions@, "forward"@) is Some
    &&& m.functions@.len() > 0
    &&& m.functions@[0].params@.len() == 0
    &&& fn_with_mismatched_let(Item::FnDef(m.functions@[0]), active)
}

/// The error of an [`item_with_mismatched_let`].
pub open spec fn item_let_message(item: Item) -> Seq<char> {
    match item {
        Item::Implement(imp) => first_let_message(Item::FnDef(imp.functions@[0])),
        Item::ModelDef(m) => first_let_message(Item::FnDef(m.functions@[0])),
        _ => first_let_message(item),
    }
}

/// The error of a [`fn_with_mismatched_let`].
pub open spec fn first_let_message(item: Item) -> Seq<char> {
    match item {
        Item::FnDef(f) => let_mismatch_message(f.body.stmts@[0]),
        _ => Seq::empty(),
    }
}

/// The name and annotation of a `let`.
pub open spec fn let_name(s: Stmt) -> Seq<char> {
    match s {
        Stmt::Let(l) => l.name@,
        _ => Seq::empty(),
    }
}

pub open spec fn let_annotation(s: Stmt) -> Type {
    match s {
        Stmt::Let(l) => match l.ty {
            Some(a) => a,
            None => Type::Unit,
        },
        _ => Type::Unit,
    }
}

/// The type of a block of the simple shapes: empty (`i32`), one [`simple_let`] (`()`), or a
/// `simple_let` followed by its own name (the annotation). `None` for any other block.
pub open spec fn simple_block_type(stmts: Seq<Stmt>) -> Option<Type> {
    if stmts.len() == 0 {
        Some(Type::I32)
    } else if stmts.len() == 1 && simple_let(stmts[0]) {
        Some(Type::Unit)
    } else if stmts.len() == 2 && simple_let(stmts[0]) && (stmts[1] matches Stmt::ExprStmt(e)
        && (e.kind matches ExprKind::Ident(n) && n@ == let_name(stmts[0]) && n@ != "self"@)) {
        Some(let_annotation(stmts[0]))
    } else {
        None
    }
}

/// A function without parameters whose body is a simple block (see [`simple_block_type`])
/// of the declared return type, if one is declared (a plain type).
pub open spec fn simple_fn(f: FnDef) -> bool {
    &&& f.params@.len() == 0
    &&& simple_block_type(f.body.stmts@) is Some
    &&& (f.return_type matches Some(t) ==> is_plain(t) && simple_block_type(f.body.stmts@) == Some(t))
}

/// An item that checking accepts without looking further: a [`simple_fn`] that is not being
/// checked already, a struct, an enum, a proto, a `use` or an interface.
pub open spec fn simple_item(item: Item, active: Seq<Seq<char>>) -> bool {
    match item {
        Item::FnDef(f) => simple_fn(f) && !active.contains(f.name@),
        Item::StructDef(_) | Item::EnumDef(_) | Item::ProtoDef(_) | Item::Use(_) | Item::Interface(_) => true,
        _ => false,
    }
}

/// The error for a model without `forward`.
pub open spec fn forward_missing(name: Seq<char>) -> Seq<char> {
    "model '"@ + name + "' must define a 'forward' function"@
}

/// A plain type equals itself in every sense the checker uses.
pub proof fn lemma_plain_eq(t: Type)
    requires
        is_plain(t),
    ensures
        types_eq(t, t),
        types_eq_privacy(t, t),
        stripped(t) == t,
        privacy_of(t) is None,
        type_same(t, t),
{
}

/// The name a payload type gives: that of a struct, of a generic type, or of a type
/// parameter.
pub open spec fn named_payload(t: Type) -> Option<Seq<char>> {
    match t {
        Type::Struct(n) => Some(n@),
        Type::Generic(n, _) => Some(n@),
        Type::TypeParam(n) => Some(n@),
        _ => None,
    }
}

/// `j` is the first position of `n` in `names`.
pub open spec fn first_at(names: Seq<Seq<char>>, n: Seq<char>, j: int) -> bool {
    0 <= j < names.len() && names[j] == n && forall|i: int| 0 <= i < j ==> names[i] != n
}

/// The match `me` in the state `s` is one arm `E::V(b) => b` over a variable (not `self`) of
/// type `E<args>`, where the payload of `V` names the generic parameter of `E` at position
/// `j` (its first declaration) and `j` is within `args`.
pub open spec fn generic_binding_match(s: TypeChecker, me: MatchExpr, args: Seq<Type>, j: int) -> bool {
    &&& me.cond.kind matches ExprKind::Ident(x) && x@ != "self"@
    &&& s.var_type(me.cond.kind->Ident_0@) matches Some(Type::Generic(en, a)) && a@ == args && 0 <= j < args.len()
        && (enum_index(s.enum_defs(), en@) matches Some(ei)
        && me.arms@.len() == 1
        && (me.arms@[0].pattern matches Pattern::EnumVariantWithBinding { enum_name: pe, variant_name: vn, binding: b }
            && pe@ == en@ && b@ != "self"@
            && (me.arms@[0].expr.kind matches ExprKind::Ident(y) && y@ == b@)
            && (variant_index(s.enum_defs()[ei].variants@, vn@) matches Some(vi)
                && (s.enum_defs()[ei].variants@[vi].ty matches Some(pt)
                && (named_payload(pt) matches Some(pn)
                && first_at(param_names_of(s.enum_defs()[ei].generic_params@), pn, j))))))
}

/// A literal's type carries no privacy label, and taking labels off leaves it as it is.
pub proof fn lemma_literal_type_plain(l: Literal)
    ensures
        privacy_of(literal_type(l)) is None,
        stripped(literal_type(l)) == literal_type(l),
        type_same(literal_type(l), literal_type(l)),
        types_eq(literal_type(l), literal_type(l)),
        is_plain(literal_type(l)) || literal_type(l) == byte_slice_type(),
{
    let u = Type::Slice(Box::new(Type::U8));
    assert(stripped(u) == u);
    assert(privacy_of(u) is None);
    assert(type_same(Type::U8, Type::U8));
    assert(type_same(u, u));
    assert(type_same(literal_type(l), literal_type(l)));
    assert(types_eq(Type::U8, Type::U8));
    assert(types_eq(u, u));
    assert(types_eq(literal_type(l), literal_type(l)));
}

/// `&[u8]`, the type of a byte-string literal.
pub open spec fn byte_slice_type() -> Type {
    Type::Ref { mutable: false, inner: Box::new(Type::Slice(Box::new(Type::U8))) }
}

/// A type the same as a plain type, or as a literal's type, is that type.
pub proof fn lemma_same_plain(t: Type, p: Type)
    requires
        type_same(t, p),
        is_plain(p) || p == byte_slice_type(),
    ensures
        t == p,
{
    if let Type::Ref { mutable: _, inner } = t {
        assert(type_same(*inner, Type::Slice(Box::new(Type::U8))));
        if let Type::Slice(x) = *inner {
            assert(type_same(*x, Type::U8));
            assert(*x == Type::U8);
        }
    }
}

/// The type of a literal.
pub open spec fn literal_type(l: Literal) -> Type {
    match l {
        Literal::Int(_) => Type::I32,
        Literal::Float(_) => Type::F32,
        Literal::Bool(_) => Type::Bool,
        Literal::String(_) => Type::Str,
        Literal::Unit => Type::Unit,
        Literal::ByteString(_) => Type::Ref { mutable: false, inner: Box::new(Type::Slice(Box::new(Type::U8))) },
    }
}

/// Index of the first struct named `name`.
pub open spec fn struct_index(s: Seq<StructDef>, name: Seq<char>) -> Option<int>
    decreases s.len(),
{
    if s.len() == 0 {
        None
    } else {
        match struct_index(s.drop_last(), name) {
            Some(i) => Some(i),
            None => if s.last().name@ == name { Some(s.len() - 1) } else { None },
        }
    }
}

/// Index of the first enum named `name`.
pub open spec fn enum_index(s: Seq<EnumDef>, name: Seq<char>) -> Option<int>
    decreases s.len(),
{
    if s.len() == 0 {
        None
    } else {
        match enum_index(s.drop_last(), name) {
            Some(i) => Some(i),
            None => if s.last().name@ == name { Some(s.len() - 1) } else { None },
        }
    }
}

/// Index of the first function named `name`.
pub open spec fn fn_index(s: Seq<FnDef>, name: Seq<char>) -> Option<int>
    decreases s.len(),
{
    if s.len() == 0 {
        None
    } else {
        match fn_index(s.drop_last(), name) {
            Some(i) => Some(i),
            None => if s.last().name@ == name { Some(s.len() - 1) } else { None },
        }
    }
}

/// Index of the first variant named `name`.
pub open spec fn variant_index(s: Seq<EnumVariant>, name: Seq<char>) -> Option<int>
    decreases s.len(),
{
    if s.len() == 0 {
        None
    } else {
        match variant_index(s.drop_last(), name) {
            Some(i) => Some(i),
            None => if s.last().name@ == name { Some(s.len() - 1) } else { None },
        }
    }
}

fn find_struct_in(s: &Vec<StructDef>, name: &str) -> (r: Option<usize>)
    ensures
        r matches Some(j) ==> j < s@.len() && s@[j as int].name@ == name@,
        match struct_index(s@, name@) {
            Some(i) => r matches Some(j) && j as int == i,
            None => r is None,
        },
        r matches Some(j) ==> j < s@.len(),
{
    let mut k: usize = 0;
    while k < s.len()
        invariant
            k <= s@.len(),
            struct_index(s@.take(k as int), name@) is None,
        decreases s.len() - k,
    {
        assert(s@.take(k as int + 1).drop_last() == s@.take(k as int));
        if str_eq(s[k].name.as_str(), name) {
            proof {
                lemma_struct_index_prefix(s@, k as int + 1, name@);
            }
            return Some(k);
        }
        k += 1;
    }
    assert(s@.take(s@.len() as int) == s@);
    None
}

proof fn lemma_struct_index_prefix(v: Seq<StructDef>, n: int, name: Seq<char>)
    requires
        0 < n <= v.len(),
        struct_index(v.take(n - 1), name) is None,
        v[n - 1].name@ == name,
    ensures
        struct_index(v, name) == Some(n - 1),
    decreases v.len(),
{
    assert(v.take(n).drop_last() == v.take(n - 1));
    if n < v.len() {
        assert(v.drop_last().take(n) == v.take(n));
        assert(v.drop_last().take(n - 1) == v.take(n - 1));
        lemma_struct_index_prefix(v.drop_last(), n, name);
    } else {
        assert(v.take(n) == v);
        assert(v.drop_last() == v.take(n - 1));
    }
}

fn find_enum_in(s: &Vec<EnumDef>, name: &str) -> (r: Option<usize>)
    ensures
        r matches Some(j) ==> j < s@.len() && s@[j as int].name@ == name@,
        match enum_index(s@, name@) {
            Some(i) => r matches Some(j) && j as int == i,
            None => r is None,
        },
        r matches Some(j) ==> j < s@.len(),
{
    let mut k: usize = 0;
    while k < s.len()
        invariant
            k <= s@.len(),
            enum_index(s@.take(k as int), name@) is None,
        decreases s.len() - k,
    {
        assert(s@.take(k as int + 1).drop_last() == s@.take(k as int));
        if str_eq(s[k].name.as_str(), name) {
            proof {
                lemma_enum_index_prefix(s@, k as int + 1, name@);
            }
            return Some(k);
        }
        k += 1;
    }
    assert(s@.take(s@.len() as int) == s@);
    None
}

proof fn lemma_enum_index_prefix(v: Seq<EnumDef>, n: int, name: Seq<char>)
    requires
        0 < n <= v.len(),
        enum_index(v.take(n - 1), name) is None,
        v[n - 1].name@ == name,
    ensures
        enum_index(v, name) == Some(n - 1),
    decreases v.len(),
{
    assert(v.take(n).drop_last() == v.take(n - 1));
    if n < v.len() {
        assert(v.drop_last().take(n) == v.take(n));
        assert(v.drop_last().take(n - 1) == v.take(n - 1));
        lemma_enum_index_prefix(v.drop_last(), n, name);
    } else {
        assert(v.take(n) == v);
        assert(v.drop_last() == v.take(n - 1));
    }
}

fn find_fn_in(s: &Vec<FnDef>, name: &str) -> (r: Option<usize>)
    ensures
        r matches Some(j) ==> j < s@.len() && s@[j as int].name@ == name@,
        match fn_index(s@, name@) {
            Some(i) => r matches Some(j) && j as int == i,
            None => r is None,
        },
        r matches Some(j) ==> j < s@.len(),
{
    let mut k: usize = 0;
    while k < s.len()
        invariant
            k <= s@.len(),
            fn_index(s@.take(k as int), name@) is None,
        decreases s.len() - k,
    {
        assert(s@.take(k as int + 1).drop_last() == s@.take(k as int));
        if str_eq(s[k].name.as_str(), name) {
            proof {
                lemma_fn_index_prefix(s@, k as int + 1, name@);
            }
            return Some(k);
        }
        k += 1;
    }
    assert(s@.take(s@.len() as int) == s@);
    None
}

proof fn lemma_fn_index_prefix(v: Seq<FnDef>, n: int, name: Seq<char>)
    requires
        0 < n <= v.len(),
        fn_index(v.take(n - 1), name) is None,
        v[n - 1].name@ == name,
    ensures
        fn_index(v, name) == Some(n - 1),
    decreases v.len(),
{
    assert(v.take(n).drop_last() == v.take(n - 1));
    if n < v.len() {
        assert(v.drop_last().take(n) == v.take(n));
        assert(v.drop_last().take(n - 1) == v.take(n - 1));
        lemma_fn_index_prefix(v.drop_last(), n, name);
    } else {
        assert(v.take(n) == v);
        assert(v.drop_last() == v.take(n - 1));
    }
}

fn find_variant_in(s: &Vec<EnumVariant>, name: &str) -> (r: Option<usize>)
    ensures
        match variant_index(s@, name@) {
            Some(i) => r matches Some(j) && j as int == i,
            None => r is None,
        },
        r matches Some(j) ==> j < s@.len() && s@[j as int].name@ == name@,
{
    let mut k: usize = 0;
    while k < s.len()
        invariant
            k <= s@.len(),
            variant_index(s@.take(k as int), name@) is None,
        decreases s.len() - k,
    {
        assert(s@.take(k as int + 1).drop_last() == s@.take(k as int));
        if str_eq(s[k].name.as_str(), name) {
            proof {
                lemma_variant_index_prefix(s@, k as int + 1, name@);
            }
            return Some(k);
        }
        k += 1;
    }
    assert(s@.take(s@.len() as int) == s@);
    None
}

proof fn lemma_variant_index_prefix(v: Seq<EnumVariant>, n: int, name: Seq<char>)
    requires
        0 < n <= v.len(),
        variant_index(v.take(n - 1), name) is None,
        v[n - 1].name@ == name,
    ensures
        variant_index(v, name) == Some(n - 1),
    decreases v.len(),
{
    assert(v.take(n).drop_last() == v.take(n - 1));
    if n < v.len() {
        assert(v.drop_last().take(n) == v.take(n));
        assert(v.drop_last().take(n - 1) == v.take(n - 1));
        lemma_variant_index_prefix(v.drop_last(), n, name);
    } else {
        assert(v.take(n) == v);
        assert(v.drop_last() == v.take(n - 1));
    }
}

/// Index of the first method named `name` in a method list.
spec fn method_index(s: Seq<MethodInfo>, name: Seq<char>) -> Option<int>
    decreases s.len(),
{
    if s.len() == 0 {
        None
    } else {
        match method_index(s.drop_last(), name) {
            Some(i) => Some(i),
            None => if s.last().fn_def.name@ == name { Some(s.len() - 1) } else { None },
        }
    }
}

fn find_method_in(s: &Vec<MethodInfo>, name: &str) -> (r: Option<usize>)
    ensures
        r matches Some(j) ==> j < s@.len() && s@[j as int].fn_def.name@ == name@,
        match method_index(s@, name@) {
            Some(i) => r matches Some(j) && j as int == i,
            None => r is None,
        },
        r matches Some(j) ==> j < s@.len(),
{
    let mut k: usize = 0;
    while k < s.len()
        invariant
            k <= s@.len(),
            method_index(s@.take(k as int), name@) is None,
        decreases s.len() - k,
    {
        assert(s@.take(k as int + 1).drop_last() == s@.take(k as int));
        if str_eq(s[k].fn_def.name.as_str(), name) {
            proof {
                lemma_method_index_prefix(s@, k as int + 1, name@);
            }
            return Some(k);
        }
        k += 1;
    }
    assert(s@.take(s@.len() as int) == s@);
    None
}

proof fn lemma_method_index_prefix(v: Seq<MethodInfo>, n: int, name: Seq<char>)
    requires
        0 < n <= v.len(),
        method_index(v.take(n - 1), name) is None,
        v[n - 1].fn_def.name@ == name,
    ensures
        method_index(v, name) == Some(n - 1),
    decreases v.len(),
{
    assert(v.take(n).drop_last() == v.take(n - 1));
    if n < v.len() {
        assert(v.drop_last().take(n) == v.take(n));
        assert(v.drop_last().take(n - 1) == v.take(n - 1));
        lemma_method_index_prefix(v.drop_last(), n, name);
    } else {
        assert(v.take(n) == v);
        assert(v.drop_last() == v.take(n - 1));
    }
}

/// Index of the first string equal to `name`.
fn find_string(v: &Vec<String>, name: &str) -> (r: Option<usize>)
    ensures
        r is Some <==> string_views(v@).contains(name@),
        r matches Some(j) ==> j < v@.len() && v@[j as int]@ == name@
            && forall|i: int| 0 <= i < j ==> v@[i]@ != name@,
{
    let mut k: usize = 0;
    while k < v.len()
        invariant
            k <= v@.len(),
            forall|j: int| 0 <= j < k ==> v@[j]@ != name@,
        decreases v.len() - k,
    {
        if str_eq(v[k].as_str(), name) {
            assert(string_views(v@)[k as int] == name@);
            return Some(k);
        }
        k += 1;
    }
    proof {
        if string_views(v@).contains(name@) {
            let j = choose|j: int| 0 <= j < string_views(v@).len() && #[trigger] string_views(v@)[j] == name@;
            assert(v@[j]@ == name@);
        }
    }
    None
}

/// Names of generic parameters, in order.
pub open spec fn param_names_of(params: Seq<GenericParam>) -> Seq<Seq<char>> {
    params.map_values(|g: GenericParam| generic_param_name_of(g)@)
}

impl TypeChecker {
    /// `left op right` (see [`binop_ok`], [`binop_base`], [`labeled_joined`]).
    fn check_binary_op(&self, op: &BinaryOp, left: &Type, right: &Type, left_expr: &Expr, right_expr: &Expr)
        -> (r: Result<Type, String>)
        ensures
            r is Ok <==> binop_ok(*op, *left, *right, is_int_literal(*left_expr), is_int_literal(*right_expr)),
            r matches Ok(t) ==> labeled_joined(t, binop_base(*op, *left, *right, is_int_literal(*left_expr)), *left, *right),
    {
        let left_inner = self.strip_privacy(left);
        let right_inner = self.strip_privacy(right);
        proof {
            lemma_types_eq_respects(left_inner, stripped(*left), right_inner, stripped(*right));
            lemma_kind_respects(left_inner, stripped(*left));
            lemma_kind_respects(right_inner, stripped(*right));
        }
        let left_is_literal = match &left_expr.kind {
            ExprKind::Literal(Literal::Int(_)) => true,
            _ => false,
        };
        let right_is_literal = match &right_expr.kind {
            ExprKind::Literal(Literal::Int(_)) => true,
            _ => false,
        };
        let both_numeric = self.is_numeric_type(&left_inner) && self.is_numeric_type(&right_inner);
        let same = self.types_equal(&left_inner, &right_inner);
        let types_compatible = same || (both_numeric && (left_is_literal || right_is_literal));
        let both_tensor = match (&left_inner, &right_inner) {
            (Type::Tensor { .. }, Type::Tensor { .. }) => true,
            _ => false,
        };
        let left_bool = is_bool_type(&left_inner);
        let right_bool = is_bool_type(&right_inner);
        let result_ty = if same {
            left_inner
        } else if left_is_literal {
            right_inner
        } else {
            left_inner
        };
        match op {
            BinaryOp::Add | BinaryOp::Sub | BinaryOp::Mul | BinaryOp::Div | BinaryOp::Mod => {
                let is_scalar = both_numeric && types_compatible;
                let is_tensor = same && both_tensor;
                if is_scalar || is_tensor {
                    let tag = self.join_privacy_labels(left, right);
                    Ok(self.apply_privacy_tag(result_ty, tag))
                } else {
                    let l = type_debug(left);
                    let rt = type_debug(right);
                    Err(cat(&vec!["invalid operands for arithmetic: ", l.as_str(), " and ", rt.as_str()]))
                }
            },
            BinaryOp::Eq | BinaryOp::Neq | BinaryOp::Lt | BinaryOp::Gt | BinaryOp::Le | BinaryOp::Ge => {
                if types_compatible {
                    let tag = self.join_privacy_labels(left, right);
                    Ok(self.apply_privacy_tag(Type::Bool, tag))
                } else {
                    let l = type_debug(left);
                    let rt = type_debug(right);
                    Err(cat(&vec!["comparison between different types: ", l.as_str(), " and ", rt.as_str()]))
                }
            },
            BinaryOp::And | BinaryOp::Or => {
                if left_bool && right_bool {
                    let tag = self.join_privacy_labels(left, right);
                    Ok(self.apply_privacy_tag(Type::Bool, tag))
                } else {
                    Err("logical operators require bool operands".to_string())
                }
            },
        }
    }

    /// Names of generic parameters, in order.
    fn generic_param_names(params: &Vec<GenericParam>) -> (r: Vec<String>)
        ensures
            string_views(r@) == param_names_of(params@),
    {
        let mut out: Vec<String> = Vec::new();
        let mut k: usize = 0;
        while k < params.len()
            invariant
                k <= params@.len(),
                string_views(out@) == param_names_of(params@.take(k as int)),
            decreases params.len() - k,
        {
            let name = match &params[k] {
                GenericParam::Type { name, .. } => name.clone(),
            };
            proof {
                crate::text::lemma_views_push(out@, name);
                assert(param_names_of(params@.take(k as int + 1)) == param_names_of(params@.take(k as int)).push(name@));
            }
            out.push(name);
            k += 1;
        }
        assert(params@.take(params@.len() as int) == params@);
        out
    }

    /// Matches `actual` against `expected`, binding the type parameters in `expected`; a
    /// parameter already bound must match its binding. Bindings are only ever added.
    #[verifier::loop_isolation(false)]
    fn unify_type(&self, actual: &Type, expected: &Type, bindings: &mut Vec<(String, Type)>) -> (r: bool)
        ensures
            extends(final(bindings)@, old(bindings)@),
            expected matches Type::TypeParam(n) ==> match pair_index(old(bindings)@, n@) {
                Some(i) => r == types_eq(old(bindings)@[i].1, *actual) && final(bindings)@ == old(bindings)@,
                None => r && (pair_index(final(bindings)@, n@) matches Some(j) && type_same(final(bindings)@[j].1, *actual)),
            },
            !(expected is TypeParam || expected is Ref || expected is Slice || expected is Privacy || expected is Generic
                || expected is Tensor) ==> r == types_eq(*actual, *expected) && final(bindings)@ == old(bindings)@,
            expected matches Type::Generic(en, ea) ==> (!(actual matches Type::Generic(an, aa) && an@ == en@
                && aa@.len() == ea@.len()) ==> !r && final(bindings)@ == old(bindings)@),
            expected matches Type::Ref { mutable: em, .. } ==> (!(actual matches Type::Ref { mutable: am, .. } && am == em)
                ==> !r && final(bindings)@ == old(bindings)@),
            r ==> params_bound(*expected, final(bindings)@),
            r ==> forall|s: Type| #[trigger] substituted(s, *expected, final(bindings)@) ==> agrees(s, *actual),
        decreases expected,
    {
        match expected {
            Type::TypeParam(name) => {
                match find_pair(bindings, name) {
                    Some(i) => {
                        let r = self.types_equal(&bindings[i].1, actual);
                        proof {
                            assert(pair_index(bindings@, name@) == Some(i as int));
                            assert(params_bound(*expected, bindings@));
                            assert forall|s: Type| #[trigger] substituted(s, *expected, bindings@) && r implies agrees(s, *actual) by {
                                lemma_type_same_refl(*actual);
                                lemma_types_eq_respects(s, bindings@[i as int].1, *actual, *actual);
                            }
                        }
                        r
                    },
                    None => {
                        let ghost before = bindings@;
                        bindings.push((name.clone(), copy_type(actual)));
                        proof {
                            assert(bindings@.take(before.len() as int) == before);
                            lemma_pair_index_prefix(bindings@, bindings@.len() as int, name@);
                            let j = bindings@.len() - 1;
                            assert(pair_index(bindings@, name@) is Some);
                            assert(params_bound(*expected, bindings@));
                            assert forall|s: Type| #[trigger] substituted(s, *expected, bindings@) implies agrees(s, *actual) by {
                                crate::properties::lemma_type_same_transitive(s, bindings@[j].1, *actual);
                            }
                        }
                        true
                    },
                }
            },
            Type::Ref { mutable: em, inner: einner } => {
                match actual {
                    Type::Ref { mutable: am, inner: ainner } => {
                        if *em != *am {
                            return false;
                        }
                        let r = self.unify_type(ainner, einner, bindings);
                        proof {
                            assert forall|s: Type| #[trigger] substituted(s, *expected, bindings@) && r implies agrees(s, *actual) by {
                                if let Type::Ref { inner: i2, .. } = s {
                                    assert(substituted(*i2, **einner, bindings@));
                                }
                            }
                        }
                        r
                    },
                    _ => false,
                }
            },
            Type::Slice(einner) => {
                match actual {
                    Type::Slice(ainner) => {
                        let r = self.unify_type(ainner, einner, bindings);
                        proof {
                            assert forall|s: Type| #[trigger] substituted(s, *expected, bindings@) && r implies agrees(s, *actual) by {
                                if let Type::Slice(i2) = s {
                                    assert(substituted(*i2, **einner, bindings@));
                                }
                            }
                        }
                        r
                    },
                    _ => false,
                }
            },
            Type::Privacy(einner, _) => {
                let stripped_actual = self.strip_privacy(actual);
                let r = self.unify_type(&stripped_actual, einner, bindings);
                proof {
                    assert forall|s: Type| #[trigger] substituted(s, *expected, bindings@) && r implies agrees(s, *actual) by {
                        if let Type::Privacy(i2, _) = s {
                            assert(substituted(*i2, **einner, bindings@));
                            crate::properties::lemma_type_same_symmetric(stripped_actual, stripped(*actual));
                            lemma_agrees_same_right(*i2, stripped_actual, stripped(*actual));
                            lemma_agrees_unstrip(*i2, *actual);
                        }
                    }
                }
                r
            },
            Type::Generic(ename, eargs) => {
                match actual {
                    Type::Generic(aname, aargs) => {
                        if !str_eq(ename.as_str(), aname.as_str()) || eargs.len() != aargs.len() {
                            return false;
                        }
                        let ghost start = bindings@;
                        let mut k: usize = 0;
                        while k < eargs.len()
                            invariant
                                k <= eargs@.len(),
                                eargs@.len() == aargs@.len(),
                                extends(bindings@, start),
                                extends(start, old(bindings)@),
                                forall|q: int| 0 <= q < k ==> #[trigger] params_bound(eargs@[q], bindings@),
                                forall|q: int, s: Type| 0 <= q < k && #[trigger] substituted(s, eargs@[q], bindings@)
                                    ==> agrees(s, aargs@[q]),
                            decreases eargs.len() - k,
                        {
                            proof {
                                broadcast use vstd::std_specs::vec::axiom_vec_index_decreases;
                                assert(decreases_to!(*eargs => eargs[k as int]));
                            }
                            let ghost bk = bindings@;
                            if !self.unify_type(&aargs[k], &eargs[k], bindings) {
                                return false;
                            }
                            proof {
                                assert forall|q: int| 0 <= q < k + 1 implies #[trigger] params_bound(eargs@[q], bindings@) by {
                                    if q < k {
                                        lemma_params_bound_extends(eargs@[q], bk, bindings@);
                                    }
                                }
                                assert forall|q: int, s: Type| 0 <= q < k + 1 && #[trigger] substituted(s, eargs@[q], bindings@)
                                    implies agrees(s, aargs@[q]) by {
                                    if q < k {
                                        lemma_substituted_stable(s, eargs@[q], bk, bindings@);
                                    }
                                }
                            }
                            k += 1;
                        }
                        proof {
                            assert forall|q: int| 0 <= q < eargs@.len() implies #[trigger] params_bound(eargs@[q], bindings@) by {}
                            assert(*expected == Type::Generic(*ename, *eargs));
                            lemma_params_bound_generic(*ename, *eargs, bindings@);
                            assert forall|s: Type| #[trigger] substituted(s, *expected, bindings@) implies agrees(s, *actual) by {
                                if let Type::Generic(n2, a2) = s {
                                    assert forall|q: int| 0 <= q < a2@.len() implies agrees(#[trigger] a2@[q], aargs@[q]) by {
                                        assert(substituted(a2@[q], eargs@[q], bindings@));
                                    }
                                }
                            }
                        }
                        true
                    },
                    _ => false,
                }
            },
            Type::Tensor { dtype: edtype, shape: eshape } => {
                match actual {
                    Type::Tensor { dtype: adtype, shape: ashape } => {
                        let r = self.unify_type(adtype, edtype, bindings) && shape_eq(eshape, ashape);
                        proof {
                            assert forall|s: Type| #[trigger] substituted(s, *expected, bindings@) && r implies agrees(s, *actual) by {
                                if let Type::Tensor { dtype: d2, shape: s2 } = s {
                                    assert(substituted(*d2, **edtype, bindings@));
                                }
                            }
                        }
                        r
                    },
                    _ => false,
                }
            },
            _ => {
                let r = self.types_equal(actual, expected);
                proof {
                    assert forall|s: Type| #[trigger] substituted(s, *expected, bindings@) && r implies agrees(s, *actual) by {
                        crate::properties::lemma_types_eq_symmetric(*actual, *expected);
                        lemma_type_same_refl(*actual);
                        lemma_types_eq_respects(s, *expected, *actual, *actual);
                    }
                }
                r
            },
        }
    }

    /// `ty` with each bound type parameter replaced by its binding (see [`substituted`]).
    #[verifier::loop_isolation(false)]
    fn substitute_type(&self, ty: &Type, bindings: &Vec<(String, Type)>) -> (r: Type)
        ensures
            substituted(r, *ty, bindings@),
        decreases ty,
    {
        match ty {
            Type::TypeParam(name) => {
                match find_pair(bindings, name) {
                    Some(i) => copy_type(&bindings[i].1),
                    None => {
                        proof {
                            lemma_type_same_refl(*ty);
                        }
                        copy_type(ty)
                    },
                }
            },
            Type::Ref { mutable, inner } => Type::Ref { mutable: *mutable, inner: Box::new(self.substitute_type(inner, bindings)) },
            Type::Slice(inner) => Type::Slice(Box::new(self.substitute_type(inner, bindings))),
            Type::Privacy(inner, tag) => Type::Privacy(Box::new(self.substitute_type(inner, bindings)), copy_privacy_tag(tag)),
            Type::Generic(name, args) => {
                let mut out: Vec<Type> = Vec::new();
                let mut k: usize = 0;
                while k < args.len()
                    invariant
                        k <= args@.len(),
                        out@.len() == k,
                        forall|j: int| 0 <= j < k ==> substituted(#[trigger] out@[j], args@[j], bindings@),
                    decreases args.len() - k,
                {
                    proof {
                        broadcast use vstd::std_specs::vec::axiom_vec_index_decreases;
                        assert(decreases_to!(*args => args[k as int]));
                    }
                    out.push(self.substitute_type(&args[k], bindings));
                    k += 1;
                }
                Type::Generic(name.clone(), out)
            },
            Type::Tensor { dtype, shape } => {
                let d = self.substitute_type(dtype, bindings);
                let mut out: Vec<ShapeDim> = Vec::new();
                let mut k: usize = 0;
                while k < shape.len()
                    invariant
                        k <= shape@.len(),
                        out@.len() == k,
                        forall|j: int| 0 <= j < k ==> shape_dim_same(#[trigger] out@[j], shape@[j]),
                    decreases shape.len() - k,
                {
                    out.push(copy_shape_dim(&shape[k]));
                    k += 1;
                }
                Type::Tensor { dtype: Box::new(d), shape: out }
            },
            other => {
                proof {
                    lemma_type_same_refl(*other);
                }
                copy_type(other)
            },
        }
    }
}

/// [`types_eq`] does not tell apart types that are [`type_same`].
proof fn lemma_types_eq_respects(a1: Type, a: Type, b1: Type, b: Type)
    requires
        type_same(a1, a),
        type_same(b1, b),
    ensures
        types_eq(a1, b1) == types_eq(a, b),
    decreases a, b,
{
    match (a, b) {
        (Type::Generic(n, xs), Type::Generic(m, ys)) => {
            if let (Type::Generic(n1, xs1), Type::Generic(m1, ys1)) = (a1, b1) {
                assert(n1@ == n@ && m1@ == m@);
                assert(xs1@.len() == xs@.len() && ys1@.len() == ys@.len());
                if xs@.len() == ys@.len() {
                    assert forall|k: int| 0 <= k < xs@.len() implies
                        types_eq(#[trigger] xs1@[k], ys1@[k]) == types_eq(xs@[k], ys@[k]) by {
                        assert(type_same(xs1@[k], xs@[k]));
                        assert(type_same(ys1@[k], ys@[k]));
                        lemma_types_eq_respects(xs1@[k], xs@[k], ys1@[k], ys@[k]);
                    }
                    if types_eq(a, b) {
                        assert forall|k: int| 0 <= k < xs1@.len() implies types_eq(#[trigger] xs1@[k], ys1@[k]) by {
                            assert(types_eq(xs@[k], ys@[k]));
                        }
                    }
                    if types_eq(a1, b1) {
                        assert forall|k: int| 0 <= k < xs@.len() implies types_eq(#[trigger] xs@[k], ys@[k]) by {
                            assert(types_eq(xs1@[k], ys1@[k]));
                        }
                    }
                }
            }
        },
        (Type::Ref { inner: i, .. }, Type::Ref { inner: j, .. }) => {
            if let (Type::Ref { inner: i1, .. }, Type::Ref { inner: j1, .. }) = (a1, b1) {
                lemma_types_eq_respects(*i1, *i, *j1, *j);
            }
        },
        (Type::Slice(i), Type::Slice(j)) => {
            if let (Type::Slice(i1), Type::Slice(j1)) = (a1, b1) {
                lemma_types_eq_respects(*i1, *i, *j1, *j);
            }
        },
        (Type::Tensor { dtype: d, shape: s }, Type::Tensor { dtype: e, shape: t }) => {
            if let (Type::Tensor { dtype: d1, shape: s1 }, Type::Tensor { dtype: e1, shape: t1 }) = (a1, b1) {
                lemma_types_eq_respects(*d1, *d, *e1, *e);
                if s@.len() == t@.len() {
                    assert forall|k: int| 0 <= k < s@.len() implies
                        shape_dim_same(#[trigger] s1@[k], t1@[k]) == shape_dim_same(s@[k], t@[k]) by {
                        assert(shape_dim_same(s1@[k], s@[k]));
                        assert(shape_dim_same(t1@[k], t@[k]));
                    }
                    if types_eq(a, b) {
                        assert forall|k: int| 0 <= k < s1@.len() implies shape_dim_same(#[trigger] s1@[k], t1@[k]) by {
                            assert(shape_dim_same(s@[k], t@[k]));
                        }
                    }
                    if types_eq(a1, b1) {
                        assert forall|k: int| 0 <= k < s@.len() implies shape_dim_same(#[trigger] s@[k], t@[k]) by {
                            assert(shape_dim_same(s1@[k], t1@[k]));
                        }
                    }
                }
            }
        },
        (Type::Privacy(i, _), Type::Privacy(j, _)) => {
            if let (Type::Privacy(i1, _), Type::Privacy(j1, _)) = (a1, b1) {
                lemma_types_eq_respects(*i1, *i, *j1, *j);
            }
        },
        (Type::Privacy(i, _), _) => {
            if let Type::Privacy(i1, _) = a1 {
                lemma_types_eq_respects(*i1, *i, b1, b);
            }
        },
        (_, Type::Privacy(j, _)) => {
            if let Type::Privacy(j1, _) = b1 {
                lemma_types_eq_respects(a1, a, *j1, *j);
            }
        },
        _ => {},
    }
}

/// Types that are [`type_same`] are of the same kind.
proof fn lemma_kind_respects(a1: Type, a: Type)
    requires
        type_same(a1, a),
    ensures
        is_numeric(a1) == is_numeric(a),
        is_signed_numeric(a1) == is_signed_numeric(a),
        is_integer(a1) == is_integer(a),
        (a1 is Bool) == (a is Bool),
        (a1 is Unit) == (a is Unit),
        (a1 is Str) == (a is Str),
        (a1 is Tensor) == (a is Tensor),
{
}

} // verus!

verus! {

/// What a type name stands for.
pub enum ResolvedTypeName {
    Struct(StructDef),
    Enum,
    Unknown,
}

/// The names, in declaration order, of the enums that have a variant `name`.
pub open spec fn enums_with_variant(enums: Seq<EnumDef>, name: Seq<char>) -> Seq<Seq<char>>
    decreases enums.len(),
{
    if enums.len() == 0 {
        Seq::empty()
    } else if variant_index(enums.last().variants@, name) is Some {
        enums_with_variant(enums.drop_last(), name).push(enums.last().name@)
    } else {
        enums_with_variant(enums.drop_last(), name)
    }
}

/// How a bare variant name (`Ok`, `None`, ...) resolves against the known enums.
pub enum BareVariantOutcome {
    Unique(String),
    /// The enums that have such a variant, sorted by name.
    Ambiguous(Vec<String>),
    NotFound,
}

/// Index of the argument that a builtin reads as parameter `name` at position `pos`: the
/// positional argument there, or a named argument `name` there, or else the first argument
/// named `name`.
pub open spec fn arg_choice(args: Seq<CallArg>, pos: int, name: Seq<char>) -> Option<int> {
    if 0 <= pos < args.len() && (args[pos] is Positional || (args[pos] matches CallArg::Named(n, _) && n@ == name)) {
        Some(pos)
    } else {
        named_arg_index(args, name)
    }
}

/// Index of the first argument named `name`.
pub open spec fn named_arg_index(args: Seq<CallArg>, name: Seq<char>) -> Option<int>
    decreases args.len(),
{
    if args.len() == 0 {
        None
    } else {
        match named_arg_index(args.drop_last(), name) {
            Some(i) => Some(i),
            None => if args.last() matches CallArg::Named(n, _) && n@ == name { Some(args.len() - 1) } else { None },
        }
    }
}

/// The expression of a call argument.
pub open spec fn call_arg_expr(a: CallArg) -> Expr {
    match a {
        CallArg::Positional(e) => e,
        CallArg::Named(_, e) => e,
    }
}

impl TypeChecker {
    /// The symbol tables and the function context are as in `old`.
    pub closed spec fn tables_kept(new: TypeChecker, old: TypeChecker) -> bool {
        &&& new.structs == old.structs
        &&& new.enums == old.enums
        &&& new.consts == old.consts
        &&& new.functions == old.functions
        &&& new.methods == old.methods
        &&& new.model_names == old.model_names
        &&& new.model_return_types == old.model_return_types
        &&& new.model_sensitivities == old.model_sensitivities
        &&& new.in_model == old.in_model
        &&& new.current_self_type == old.current_self_type
        &&& new.current_return_type == old.current_return_type
        &&& new.wf()
    }

    /// The scopes and the function stack are as in `old`.
    pub closed spec fn balanced(new: TypeChecker, old: TypeChecker) -> bool {
        &&& new.scopes@.len() == old.scopes@.len()
        &&& new.fn_stack@ == old.fn_stack@
    }

    /// Declares `name` in the innermost scope; an earlier declaration there is replaced.
    fn declare(&mut self, name: String, ty: Type)
        requires
            old(self).wf(),
        ensures
            TypeChecker::tables_kept(*final(self), *old(self)),
            TypeChecker::balanced(*final(self), *old(self)),
            final(self).expr_types == old(self).expr_types,
            final(self).var_type(name@) == Some(ty),
    {
        let ghost key = name@;
        let ghost bound = ty;
        let last = self.scopes.len() - 1;
        let mut scope = Vec::new();
        std::mem::swap(&mut scope, &mut self.scopes[last]);
        match find_pair(&scope, &name) {
            Some(i) => {
                let ghost before = scope@;
                scope.set(i, (name, ty));
                proof {
                    lemma_pair_index_update(before, i as int, scope@[i as int], key);
                }
            },
            None => {
                let ghost before = scope@;
                scope.push((name, ty));
                proof {
                    assert(scope@.take(before.len() as int) == before);
                    lemma_pair_index_prefix(scope@, scope@.len() as int, key);
                }
            },
        }
        assert(pair_index(scope@, key) matches Some(i) && scope@[i].1 == bound);
        std::mem::swap(&mut scope, &mut self.scopes[last]);
        assert(self.scopes@.last() == self.scopes@[last as int]);
    }

    /// Opens a scope holding the given bindings.
    fn push_scope(&mut self, bindings: Vec<(String, Type)>)
        requires
            old(self).wf(),
        ensures
            TypeChecker::tables_kept(*final(self), *old(self)),
            final(self).scopes@.len() == old(self).scopes@.len() + 1,
            final(self).fn_stack == old(self).fn_stack,
            final(self).expr_types == old(self).expr_types,
    {
        self.scopes.push(bindings);
    }

    /// Closes the innermost scope, keeping at least one.
    fn pop_scope(&mut self)
        requires
            old(self).scopes@.len() >= 2,
        ensures
            TypeChecker::tables_kept(*final(self), *old(self)),
            final(self).scopes@.len() == old(self).scopes@.len() - 1,
            final(self).fn_stack == old(self).fn_stack,
            final(self).expr_types == old(self).expr_types,
    {
        let _ = self.scopes.pop();
    }

    /// The type of a variable, innermost scope first.
    fn lookup_var(&self, name: &String) -> (r: Option<Type>)
        ensures
            match self.var_type(name@) {
                Some(t) => r matches Some(u) && type_same(u, t),
                None => r is None,
            },
    {
        let mut k = self.scopes.len();
        assert(self.scopes@.take(k as int) == self.scopes@);
        while k > 0
            invariant
                k <= self.scopes@.len(),
                scope_lookup(self.scopes@.take(k as int), name@) == self.var_type(name@),
            decreases k,
        {
            assert(self.scopes@.take(k as int).drop_last() == self.scopes@.take(k - 1));
            assert(self.scopes@.take(k as int).last() == self.scopes@[k - 1]);
            k -= 1;
            if let Some(i) = find_pair(&self.scopes[k], name) {
                return Some(copy_type(&self.scopes[k][i].1));
            }
        }
        None
    }

    fn find_struct(&self, name: &str) -> (r: Option<usize>)
        ensures
            match struct_index(self.struct_defs(), name@) {
                Some(i) => r matches Some(j) && j as int == i,
                None => r is None,
            },
            r matches Some(j) ==> j < self.struct_defs().len(),
    {
        find_struct_in(&self.structs, name)
    }

    fn find_enum(&self, name: &str) -> (r: Option<usize>)
        ensures
            r matches Some(j) ==> j < self.enum_defs().len() && self.enum_defs()[j as int].name@ == name@,
            match enum_index(self.enum_defs(), name@) {
                Some(i) => r matches Some(j) && j as int == i,
                None => r is None,
            },
            r matches Some(j) ==> j < self.enum_defs().len(),
    {
        find_enum_in(&self.enums, name)
    }

    /// Whether a method `func_name` is filed under `owner_name`.
    /// The method `func_name` filed under `owner_name`, where there is one.
    spec fn method_entry(&self, owner_name: Seq<char>, func_name: Seq<char>) -> Option<MethodInfo> {
        match pair_index(self.methods@, owner_name) {
            Some(t) => match method_index(self.methods@[t].1@, func_name) {
                Some(m) => Some(self.methods@[t].1@[m]),
                None => None,
            },
            None => None,
        }
    }

    pub closed spec fn has_method(&self, owner_name: Seq<char>, func_name: Seq<char>) -> bool {
        pair_index(self.methods@, owner_name) matches Some(t)
            && method_index(self.methods@[t].1@, func_name) is Some
    }

    /// The method `func_name` filed under `owner_name`: indices of its list and entry.
    fn find_method(&self, owner_name: &str, func_name: &str) -> (r: Option<(usize, usize)>)
        ensures
            r is Some <==> self.has_method(owner_name@, func_name@),
            r matches Some((t, m)) ==> t < self.methods@.len() && m < self.methods@[t as int].1@.len(),
            r matches Some((t, m)) ==> self.method_entry(owner_name@, func_name@) == Some(self.methods@[t as int].1@[m as int]),
    {
        let key = owner_name.to_string();
        match find_pair(&self.methods, &key) {
            Some(t) => match find_method_in(&self.methods[t].1, func_name) {
                Some(m) => Some((t, m)),
                None => None,
            },
            None => None,
        }
    }

    /// The method `func_name` filed under `owner_name`, with its block's target type.
    fn method_info(&self, owner_name: &str, func_name: &str) -> (r: Option<MethodInfo>)
        ensures
            match self.method_entry(owner_name@, func_name@) {
                Some(e) => r matches Some(mi) && method_copied(mi, e),
                None => r is None,
            },
    {
        match self.find_method(owner_name, func_name) {
            Some((t, m)) => {
                let info = &self.methods[t].1[m];
                Some(MethodInfo { fn_def: copy_fn_def(&info.fn_def), target_type: copy_type(&info.target_type) })
            },
            None => None,
        }
    }

    /// Whether `name` is a known model.
    fn is_model_name(&self, name: &str) -> (r: bool)
        ensures
            r == string_views(self.model_names@).contains(name@),
    {
        find_string(&self.model_names, name).is_some()
    }

    /// The return type of a model's `forward`, where it is known.
    fn model_return_type_of(&self, name: &String) -> (r: Option<Type>)
        ensures
            match pair_index(self.model_return_types@, name@) {
                Some(i) => r matches Some(t) && type_same(t, self.model_return_types@[i].1),
                None => r is None,
            },
    {
        match find_pair(&self.model_return_types, name) {
            Some(i) => Some(copy_type(&self.model_return_types[i].1)),
            None => None,
        }
    }

    // ===== names of types and paths =====

    /// What a type name stands for: a struct (with a copy of its definition), an enum, or
    /// nothing known.
    pub fn resolve_type_name(&self, name: &str) -> (r: ResolvedTypeName)
        ensures
            match struct_index(self.struct_defs(), name@) {
                Some(i) => r matches ResolvedTypeName::Struct(s) && s.name@ == self.struct_defs()[i].name@,
                None => if enum_index(self.enum_defs(), name@) is Some { r is Enum } else { r is Unknown },
            },
    {
        if let Some(i) = self.find_struct(name) {
            return ResolvedTypeName::Struct(copy_struct_def(&self.structs[i]));
        }
        if self.find_enum(name).is_some() {
            return ResolvedTypeName::Enum;
        }
        ResolvedTypeName::Unknown
    }

    /// A named type with its kind corrected from the tables: a struct name is a struct, an
    /// enum name an enum (struct first); an unknown name is an error; other types are kept.
    pub fn resolve_type(&self, ty: &Type) -> (r: Result<Type, String>)
        ensures
            match *ty {
                Type::Struct(n) | Type::Enum(n) => {
                    let first_struct = if *ty is Struct { struct_index(self.struct_defs(), n@) is Some }
                        else { enum_index(self.enum_defs(), n@) is None && struct_index(self.struct_defs(), n@) is Some };
                    if first_struct {
                        r matches Ok(Type::Struct(m)) && m@ == n@
                    } else if enum_index(self.enum_defs(), n@) is Some {
                        r matches Ok(Type::Enum(m)) && m@ == n@
                    } else {
                        r matches Err(m) && m@ == "undefined type: "@ + n@
                    }
                },
                _ => r matches Ok(t) && type_same(t, *ty),
            },
    {
        match ty {
            Type::Struct(name) => {
                if self.find_struct(name.as_str()).is_some() {
                    Ok(Type::Struct(name.clone()))
                } else if self.find_enum(name.as_str()).is_some() {
                    Ok(Type::Enum(name.clone()))
                } else {
                    let mut m = String::new();
                    push_str(&mut m, "undefined type: ");
                    push_str(&mut m, name.as_str());
                    Err(m)
                }
            },
            Type::Enum(name) => {
                if self.find_enum(name.as_str()).is_some() {
                    Ok(Type::Enum(name.clone()))
                } else if self.find_struct(name.as_str()).is_some() {
                    Ok(Type::Struct(name.clone()))
                } else {
                    let mut m = String::new();
                    push_str(&mut m, "undefined type: ");
                    push_str(&mut m, name.as_str());
                    Err(m)
                }
            },
            other => {
                proof {
                    lemma_type_same_refl(*other);
                }
                Ok(copy_type(other))
            },
        }
    }

    /// The definition of a struct; an enum name or an unknown name is an error.
    pub fn resolve_struct(&self, name: &str) -> (r: Result<StructDef, String>)
        ensures
            match struct_index(self.struct_defs(), name@) {
                Some(i) => r matches Ok(s) && s.name@ == self.struct_defs()[i].name@
                    && s.fields@.len() == self.struct_defs()[i].fields@.len()
                    && crate::ast::generic_params_same(s.generic_params@, self.struct_defs()[i].generic_params@)
                    && forall|k: int| 0 <= k < s.fields@.len() ==> (#[trigger] s.fields@[k]).name@ == self.struct_defs()[i].fields@[k].name@
                        && type_same(s.fields@[k].ty, self.struct_defs()[i].fields@[k].ty),
                None => if enum_index(self.enum_defs(), name@) is Some {
                    r matches Err(m) && m@ == "`"@ + name@ + "` is an enum, not a struct"@
                } else {
                    r matches Err(m) && m@ == "undefined struct: "@ + name@
                },
            },
    {
        if let Some(i) = self.find_struct(name) {
            Ok(copy_struct_def(&self.structs[i]))
        } else if self.find_enum(name).is_some() {
            let mut m = String::new();
            push_str(&mut m, "`");
            push_str(&mut m, name);
            push_str(&mut m, "` is an enum, not a struct");
            Err(m)
        } else {
            let mut m = String::new();
            push_str(&mut m, "undefined struct: ");
            push_str(&mut m, name);
            Err(m)
        }
    }

    /// The variant `variant_name` of the enum `enum_name`, where both exist.
    pub fn resolve_variant_in(&self, enum_name: &str, variant_name: &str) -> (r: Option<EnumVariant>)
        ensures
            match enum_index(self.enum_defs(), enum_name@) {
                Some(e) => match variant_index(self.enum_defs()[e].variants@, variant_name@) {
                    Some(v) => r matches Some(x) && x.name@ == variant_name@
                        && opt_type_same(x.ty, self.enum_defs()[e].variants@[v].ty),
                    None => r is None,
                },
                None => r is None,
            },
    {
        match self.find_enum(enum_name) {
            Some(e) => match find_variant_in(&self.enums[e].variants, variant_name) {
                Some(v) => {
                    let var = &self.enums[e].variants[v];
                    Some(EnumVariant { name: var.name.clone(), ty: copy_opt_type(&var.ty) })
                },
                None => None,
            },
            None => None,
        }
    }

    /// Whether the enum `enum_name` exists and has the variant `variant_name`.
    pub fn has_variant(&self, enum_name: &str, variant_name: &str) -> (r: bool)
        ensures
            r == match enum_index(self.enum_defs(), enum_name@) {
                Some(e) => variant_index(self.enum_defs()[e].variants@, variant_name@) is Some,
                None => false,
            },
    {
        match self.find_enum(enum_name) {
            Some(e) => find_variant_in(&self.enums[e].variants, variant_name).is_some(),
            None => false,
        }
    }

    /// Whether `owner_name::func_name` is a method filed from an implement block.
    pub fn has_qualified_static(&self, owner_name: &str, func_name: &str) -> (r: bool)
        ensures
            r == self.has_method(owner_name@, func_name@),
    {
        self.find_method(owner_name, func_name).is_some()
    }

    /// The enums that have a variant named `name`: none, exactly one, or several (sorted).
    pub fn resolve_bare_variant(&self, name: &str) -> (r: BareVariantOutcome)
        ensures
            match r {
                BareVariantOutcome::NotFound => forall|k: int| 0 <= k < self.enum_defs().len() ==>
                    variant_index(#[trigger] self.enum_defs()[k].variants@, name@) is None,
                BareVariantOutcome::Unique(e) => exists|k: int| 0 <= k < self.enum_defs().len()
                    && #[trigger] self.enum_defs()[k].name@ == e@ && variant_index(self.enum_defs()[k].variants@, name@) is Some,
                BareVariantOutcome::Ambiguous(v) => v@.len() >= 2 && exists|k: int| 0 <= k < self.enum_defs().len()
                    && variant_index(#[trigger] self.enum_defs()[k].variants@, name@) is Some,
            },
            match r {
                BareVariantOutcome::NotFound => enums_with_variant(self.enum_defs(), name@).len() == 0,
                BareVariantOutcome::Unique(e) => enums_with_variant(self.enum_defs(), name@) == seq![e@],
                BareVariantOutcome::Ambiguous(v) => enums_with_variant(self.enum_defs(), name@).len() == v@.len()
                    && v@.len() >= 2
                    && (forall|t: Seq<char>| #[trigger] string_views(v@).contains(t)
                        <==> enums_with_variant(self.enum_defs(), name@).contains(t))
                    && (forall|i: int, l: int| 0 <= i < l < v@.len() ==> !crate::text::lex_lt(#[trigger] v@[l]@, #[trigger] v@[i]@))
                    && (enums_with_variant(self.enum_defs(), name@).no_duplicates()
                        ==> forall|i: int, l: int| 0 <= i < l < v@.len() ==> crate::text::lex_lt(#[trigger] v@[i]@, #[trigger] v@[l]@)),
            },
    {
        let mut matches: Vec<String> = Vec::new();
        let ghost mut idx: Seq<int> = Seq::empty();
        let mut k: usize = 0;
        while k < self.enums.len()
            invariant
                k <= self.enum_defs().len(),
                idx.len() == matches@.len(),
                forall|j: int| 0 <= j < matches@.len() ==> 0 <= #[trigger] idx[j] < self.enum_defs().len()
                    && self.enum_defs()[idx[j]].name@ == matches@[j]@
                    && variant_index(self.enum_defs()[idx[j]].variants@, name@) is Some,
                matches@.len() == 0 ==> forall|i: int| 0 <= i < k ==> variant_index(#[trigger] self.enum_defs()[i].variants@, name@) is None,
                string_views(matches@) == enums_with_variant(self.enum_defs().take(k as int), name@),
            decreases self.enums.len() - k,
        {
            assert(self.enum_defs().take(k as int + 1).drop_last() =~= self.enum_defs().take(k as int));
            assert(self.enum_defs().take(k as int + 1).last() == self.enum_defs()[k as int]);
            if find_variant_in(&self.enums[k].variants, name).is_some() {
                matches.push(self.enums[k].name.clone());
                proof {
                    idx = idx.push(k as int);
                }
            }
            proof {
                lemma_views_push(matches@.drop_last(), matches@.last());
            }
            k += 1;
        }
        assert(self.enum_defs().take(self.enum_defs().len() as int) =~= self.enum_defs());
        if matches.len() == 0 {
            BareVariantOutcome::NotFound
        } else if matches.len() == 1 {
            let only = matches[0].clone();
            assert(self.enum_defs()[idx[0]].name@ == only@);
            BareVariantOutcome::Unique(only)
        } else {
            assert(variant_index(self.enum_defs()[idx[0]].variants@, name@) is Some);
            let mut sorted: Vec<String> = Vec::new();
            let mut j: usize = 0;
            while j < matches.len()
                invariant
                    j <= matches@.len(),
                    sorted@.len() == j,
                    forall|i: int, l: int| 0 <= i < l < sorted@.len() ==>
                        !crate::text::lex_lt(#[trigger] sorted@[l]@, #[trigger] sorted@[i]@),
                    forall|t: Seq<char>| #[trigger] string_views(sorted@).contains(t)
                        <==> string_views(matches@).take(j as int).contains(t),
                    string_views(matches@).no_duplicates() ==> string_views(sorted@).no_duplicates(),
                decreases matches.len() - j,
            {
                let ghost before = sorted@;
                let m = matches[j].clone();
                proof {
                    if string_views(matches@).no_duplicates() && string_views(sorted@).contains(m@) {
                        assert(string_views(matches@).take(j as int).contains(m@));
                        let w = choose|w: int| 0 <= w < j && #[trigger] string_views(matches@).take(j as int)[w] == m@;
                        assert(string_views(matches@)[w] == string_views(matches@)[j as int]);
                    }
                }
                insert_sorted(&mut sorted, m);
                proof {
                    let tk = string_views(matches@).take(j as int + 1);
                    assert(tk =~= string_views(matches@).take(j as int).push(matches@[j as int]@));
                    assert forall|t: Seq<char>| #[trigger] string_views(sorted@).contains(t) <==> tk.contains(t) by {
                        if t == matches@[j as int]@ {
                            assert(tk[j as int] == t);
                        }
                        if tk.contains(t) {
                            let w = choose|w: int| 0 <= w < tk.len() && #[trigger] tk[w] == t;
                            if w < j {
                                assert(string_views(matches@).take(j as int)[w] == t);
                            }
                        }
                        if string_views(matches@).take(j as int).contains(t) {
                            let w = choose|w: int| 0 <= w < j && #[trigger] string_views(matches@).take(j as int)[w] == t;
                            assert(tk[w] == t);
                        }
                    }
                }
                j += 1;
            }
            assert(string_views(matches@).take(matches@.len() as int) =~= string_views(matches@));
            proof {
                if string_views(matches@).no_duplicates() {
                    assert forall|i: int, l: int| 0 <= i < l < sorted@.len()
                        implies crate::text::lex_lt(#[trigger] sorted@[i]@, #[trigger] sorted@[l]@) by {
                        assert(string_views(sorted@)[i] == sorted@[i]@);
                        assert(string_views(sorted@)[l] == sorted@[l]@);
                        crate::text::lemma_lex_total(sorted@[i]@, sorted@[l]@);
                    }
                }
            }
            BareVariantOutcome::Ambiguous(sorted)
        }
    }

    /// Index and label of the argument that a builtin reads as parameter `name` at position
    /// `pos` (see [`arg_choice`]).
    fn get_call_arg_by_pos_or_name(&self, args: &Vec<CallArg>, pos: usize, name: &str) -> (r: Result<(usize, String), String>)
        ensures
            match arg_choice(args@, pos as int, name@) {
                Some(i) => r matches Ok((j, _)) && j as int == i,
                None => r is Err,
            },
            r matches Ok((j, _)) ==> j < args@.len(),
    {
        if pos < args.len() {
            match &args[pos] {
                CallArg::Positional(_) => {
                    let mut label = String::new();
                    push_str(&mut label, "positional #");
                    push_decimal(&mut label, pos + 1);
                    return Ok((pos, label));
                },
                CallArg::Named(n, _) => {
                    if str_eq(n.as_str(), name) {
                        return Ok((pos, n.clone()));
                    }
                },
            }
        }
        match find_named_arg(args, name) {
            Some(i) => {
                let label = match &args[i] {
                    CallArg::Named(n, _) => n.clone(),
                    CallArg::Positional(_) => String::new(),
                };
                Ok((i, label))
            },
            None => {
                let mut m = String::new();
                push_str(&mut m, "argument '");
                push_str(&mut m, name);
                push_str(&mut m, "' not found (tried position ");
                if pos < usize::MAX {
                    push_decimal(&mut m, pos + 1);
                }
                push_str(&mut m, " and name '");
                push_str(&mut m, name);
                push_str(&mut m, "')");
                Err(m)
            },
        }
    }

    /// The constant value of the named argument `name` (see [`const_int_value`]).
    fn extract_int_arg(&self, args: &Vec<CallArg>, name: &str) -> (r: Result<i64, String>)
        ensures
            match int_arg(args@, name@) {
                Some(v) => in_i64(v) && r == Ok::<i64, String>(v as i64),
                None => r is Err,
            },
            match named_arg_index(args@, name@) {
                Some(i) => match const_int_value(call_arg_expr(args@[i])) {
                    Some(v) => r == Ok::<i64, String>(v as i64),
                    None => r is Err,
                },
                None => r is Err,
            },
    {
        reveal(int_arg);
        match find_named_arg(args, name) {
            Some(i) => {
                let e = match &args[i] {
                    CallArg::Named(_, e) => e,
                    CallArg::Positional(e) => e,
                };
                match self.eval_const_int_expr(e) {
                    Some(v) => Ok(v),
                    None => Err(cat(&vec!["parameter '", name, "' is not a constant integer expression"])),
                }
            },
            None => Err(cat(&vec!["parameter '", name, "' not found"])),
        }
    }
}

/// Index of the first argument named `name` (see [`named_arg_index`]).
fn find_named_arg(args: &Vec<CallArg>, name: &str) -> (r: Option<usize>)
    ensures
        match named_arg_index(args@, name@) {
            Some(i) => r matches Some(j) && j as int == i,
            None => r is None,
        },
        r matches Some(j) ==> j < args@.len() && args@[j as int] is Named,
{
    let mut k: usize = 0;
    while k < args.len()
        invariant
            k <= args@.len(),
            named_arg_index(args@.take(k as int), name@) is None,
        decreases args.len() - k,
    {
        assert(args@.take(k as int + 1).drop_last() == args@.take(k as int));
        if let CallArg::Named(n, _) = &args[k] {
            if str_eq(n.as_str(), name) {
                proof {
                    lemma_named_arg_prefix(args@, k as int + 1, name@);
                }
                return Some(k);
            }
        }
        k += 1;
    }
    assert(args@.take(args@.len() as int) == args@);
    None
}

proof fn lemma_named_arg_prefix(v: Seq<CallArg>, n: int, name: Seq<char>)
    requires
        0 < n <= v.len(),
        named_arg_index(v.take(n - 1), name) is None,
        v[n - 1] matches CallArg::Named(m, _) && m@ == name,
    ensures
        named_arg_index(v, name) == Some(n - 1),
    decreases v.len(),
{
    assert(v.take(n).drop_last() == v.take(n - 1));
    if n < v.len() {
        assert(v.drop_last().take(n) == v.take(n));
        assert(v.drop_last().take(n - 1) == v.take(n - 1));
        lemma_named_arg_prefix(v.drop_last(), n, name);
    } else {
        assert(v.take(n) == v);
        assert(v.drop_last() == v.take(n - 1));
    }
}

/// Inserts `x` into a list kept in non-decreasing lexicographic order, after any equal ones.
pub(crate) fn insert_sorted(v: &mut Vec<String>, x: String)
    requires
        forall|i: int, l: int| 0 <= i < l < old(v)@.len() ==> !crate::text::lex_lt(#[trigger] old(v)@[l]@, #[trigger] old(v)@[i]@),
    ensures
        final(v)@.len() == old(v)@.len() + 1,
        forall|i: int, l: int| 0 <= i < l < final(v)@.len() ==> !crate::text::lex_lt(#[trigger] final(v)@[l]@, #[trigger] final(v)@[i]@),
        forall|t: Seq<char>| #[trigger] string_views(final(v)@).contains(t) <==> string_views(old(v)@).contains(t) || t == x@,
        string_views(old(v)@).no_duplicates() && !string_views(old(v)@).contains(x@)
            ==> string_views(final(v)@).no_duplicates(),
{
    let mut k: usize = 0;
    while k < v.len() && !crate::text::str_lt(x.as_str(), v[k].as_str())
        invariant
            v@ == old(v)@,
            k <= v@.len(),
            forall|j: int| 0 <= j < k ==> !crate::text::lex_lt(x@, #[trigger] v@[j]@),
        decreases v.len() - k,
    {
        k += 1;
    }
    let ghost before = v@;
    let ghost xv = x@;
    assert(k < before.len() ==> crate::text::lex_lt(xv, before[k as int]@));
    v.insert(k, x);
    proof {
        assert forall|t: Seq<char>| #[trigger] string_views(v@).contains(t) <==> string_views(before).contains(t) || t == xv by {
            if string_views(v@).contains(t) {
                let w = choose|w: int| 0 <= w < string_views(v@).len() && #[trigger] string_views(v@)[w] == t;
                if w < k {
                    assert(string_views(before)[w] == t);
                } else if w > k {
                    assert(string_views(before)[w - 1] == t);
                }
            }
            if string_views(before).contains(t) {
                let w = choose|w: int| 0 <= w < string_views(before).len() && #[trigger] string_views(before)[w] == t;
                if w < k {
                    assert(string_views(v@)[w] == t);
                } else {
                    assert(string_views(v@)[w + 1] == t);
                }
            }
            if t == xv {
                assert(string_views(v@)[k as int] == t);
            }
        }
        assert forall|i: int, l: int| 0 <= i < l < v@.len() implies !crate::text::lex_lt(#[trigger] v@[l]@, #[trigger] v@[i]@) by {
            if i == k {
                assert(v@[l] == before[l - 1]);
                if crate::text::lex_lt(before[l - 1]@, xv) {
                    crate::text::lemma_lex_transitive(before[l - 1]@, xv, before[k as int]@);
                    if l - 1 == k {
                        crate::text::lemma_lex_irreflexive(before[k as int]@);
                    }
                }
            } else if l == k {
                assert(v@[i] == before[i]);
            } else if l < k {
                assert(v@[l] == before[l] && v@[i] == before[i]);
            } else if i < k {
                assert(v@[l] == before[l - 1] && v@[i] == before[i]);
            } else {
                assert(v@[l] == before[l - 1] && v@[i] == before[i - 1]);
            }
        }
        if string_views(before).no_duplicates() && !string_views(before).contains(xv) {
            assert forall|i: int, l: int| 0 <= i < string_views(v@).len() && 0 <= l < string_views(v@).len() && i != l
                implies string_views(v@)[i] != string_views(v@)[l] by {
                let sb = string_views(before);
                let sv = string_views(v@);
                if i == k {
                    if l < k { assert(sv[l] == sb[l]); } else { assert(sv[l] == sb[l - 1]); }
                } else if l == k {
                    if i < k { assert(sv[i] == sb[i]); } else { assert(sv[i] == sb[i - 1]); }
                } else {
                    let ii = if i < k { i } else { i - 1 };
                    let ll = if l < k { l } else { l - 1 };
                    assert(sv[i] == sb[ii]);
                    assert(sv[l] == sb[ll]);
                }
            }
        }
    }
}

} // verus!

verus! {

/// Expressions whose checked type is written into the type table: all but names, calls and
/// field accesses (their types are given back without being recorded).
pub open spec fn records_type(k: ExprKind) -> bool {
    !(k is Ident || k is Call || k is FieldAccess)
}

/// `&[u8]`
fn byte_slice_ref() -> (r: Type)
    ensures
        r matches Type::Ref { mutable: false, inner } && (*inner matches Type::Slice(e) && *e == Type::U8),
{
    Type::Ref { mutable: false, inner: Box::new(Type::Slice(Box::new(Type::U8))) }
}

/// Inserts or replaces the binding of `name`.
fn bind(bindings: &mut Vec<(String, Type)>, name: String, ty: Type)
    ensures
        pair_index(final(bindings)@, name@) matches Some(j) && final(bindings)@[j] == (name, ty),
        forall|n: Seq<char>| n != name@ ==> #[trigger] pair_index(final(bindings)@, n) is Some
            ==> pair_index(old(bindings)@, n) is Some,
{
    let ghost key = name@;
    let ghost x = (name, ty);
    match find_pair(bindings, &name) {
        Some(i) => {
            let ghost before = bindings@;
            bindings.set(i, (name, ty));
            proof {
                assert(bindings@ == before.update(i as int, x));
                assert forall|n: Seq<char>| pair_index(bindings@, n) == pair_index(before, n) by {
                    lemma_pair_index_update(before, i as int, x, n);
                }
            }
        },
        None => {
            let ghost before = bindings@;
            bindings.push((name, ty));
            proof {
                assert(bindings@.take(before.len() as int) == before);
                lemma_pair_index_prefix(bindings@, bindings@.len() as int, key);
                assert forall|n: Seq<char>| n != key && #[trigger] pair_index(bindings@, n) is Some
                    implies pair_index(before, n) is Some by {
                    assert(bindings@.drop_last() == before);
                }
            }
        },
    }
}

/// The element type that indexing gives, where there is one (see [`element_type`]).
pub open spec fn element_of(t: Type) -> Option<Type>
    decreases t,
{
    match t {
        Type::Ref { inner, .. } => element_of(*inner),
        Type::Slice(inner) => Some(*inner),
        Type::Generic(_, args) => if args@.len() == 1 { Some(args@[0]) } else { None },
        Type::Str => Some(Type::U8),
        _ => None,
    }
}

/// The element type that indexing gives: through references, a slice's element, the single
/// argument of a one-argument generic type, and `u8` for `str`.
fn element_type(ty: &Type) -> (r: Result<Type, String>)
    ensures
        match element_of(*ty) {
            Some(e) => r matches Ok(u) && type_same(u, e),
            None => r is Err,
        },
    decreases ty,
{
    match ty {
        Type::Ref { inner, .. } => element_type(inner),
        Type::Slice(inner) => Ok(copy_type(inner)),
        Type::Generic(_, args) => {
            if args.len() == 1 {
                Ok(copy_type(&args[0]))
            } else {
                let t = type_debug(ty);
                Err(cat(&vec!["type ", t.as_str(), " does not support indexing"]))
            }
        },
        Type::Str => Ok(Type::U8),
        other => {
            let t = type_debug(other);
            Err(cat(&vec!["type ", t.as_str(), " does not support indexing"]))
        },
    }
}

/// The positions of the parameters not named `self`, in order.
pub open spec fn non_self_indices(params: Seq<Param>) -> Seq<usize>
    decreases params.len(),
{
    if params.len() == 0 {
        Seq::empty()
    } else if params.last().name@ == "self"@ {
        non_self_indices(params.drop_last())
    } else {
        non_self_indices(params.drop_last()).push((params.len() - 1) as usize)
    }
}

/// Parameter lists with the same names have the non-`self` parameters at the same places.
proof fn lemma_non_self_same_names(a: Seq<Param>, b: Seq<Param>)
    requires
        a.len() == b.len(),
        forall|k: int| 0 <= k < a.len() ==> (#[trigger] a[k]).name@ == b[k].name@,
    ensures
        non_self_indices(a) == non_self_indices(b),
    decreases a.len(),
{
    if a.len() > 0 {
        assert forall|k: int| 0 <= k < a.drop_last().len() implies (#[trigger] a.drop_last()[k]).name@ == b.drop_last()[k].name@ by {
            assert(a.drop_last()[k] == a[k] && b.drop_last()[k] == b[k]);
        }
        lemma_non_self_same_names(a.drop_last(), b.drop_last());
        assert(a.last().name@ == b[b.len() - 1].name@);
    }
}

proof fn lemma_non_self_bounded(params: Seq<Param>)
    ensures
        forall|k: int| 0 <= k < non_self_indices(params).len() ==> #[trigger] non_self_indices(params)[k] < params.len(),
    decreases params.len(),
{
    if params.len() > 0 {
        let p = params.drop_last();
        lemma_non_self_bounded(p);
        assert forall|k: int| 0 <= k < non_self_indices(params).len() implies #[trigger] non_self_indices(params)[k] < params.len() by {
            if k < non_self_indices(p).len() {
                assert(non_self_indices(params)[k] == non_self_indices(p)[k]);
            }
        }
    }
}

/// The non-`self` parameters of a function, in order.
fn non_self_params(params: &Vec<Param>) -> (r: Vec<usize>)
    ensures
        r@ == non_self_indices(params@),
        forall|k: int| 0 <= k < r@.len() ==> #[trigger] r@[k] < params@.len(),
{
    let mut out: Vec<usize> = Vec::new();
    let mut k: usize = 0;
    while k < params.len()
        invariant
            k <= params@.len(),
            out@ == non_self_indices(params@.take(k as int)),
        decreases params.len() - k,
    {
        assert(params@.take(k as int + 1).drop_last() == params@.take(k as int));
        assert(params@.take(k as int + 1).last() == params@[k as int]);
        if !str_eq(params[k].name.as_str(), "self") {
            out.push(k);
        }
        k += 1;
    }
    assert(params@.take(params@.len() as int) == params@);
    proof {
        lemma_non_self_bounded(params@);
    }
    out
}

impl TypeChecker {
    /// The type of a name: `self` in a method, a variable (innermost first), or a constant.
    fn check_ident(&self, name: &String) -> (r: Result<Type, String>)
        ensures
            self.name_result(name@, r),
    {
        if str_eq(name.as_str(), "self") {
            if let Some(ty) = &self.current_self_type {
                return Ok(copy_type(ty));
            }
        }
        if let Some(ty) = self.lookup_var(name) {
            return Ok(ty);
        }
        if let Some(i) = self.find_const(name) {
            return Ok(copy_type(&self.consts[i].1));
        }
        let mut m = String::new();
        push_str(&mut m, "undefined variable or constant: ");
        push_str(&mut m, name.as_str());
        Err(m)
    }

    /// Checks an expression; an accepted type is written into the type table under the
    /// expression's id for all kinds but names, calls and field accesses.
    #[verifier::loop_isolation(false)]
    fn check_expr(&mut self, expr: &Expr) -> (r: Result<Type, String>)
        requires
            old(self).wf(),
        ensures
            TypeChecker::tables_kept(*final(self), *old(self)),
            r is Ok ==> TypeChecker::balanced(*final(self), *old(self)),
            r matches Ok(t) ==> (records_type(expr.kind) ==> final(self).recorded_types().contains_key(expr.id)
                && type_same(final(self).recorded_types()[expr.id], t)),
            expr.kind matches ExprKind::Literal(l) ==> r == Ok::<Type, String>(literal_type(l)),
            expr.kind is Sym ==> r == Ok::<Type, String>(Type::I32),
            builtin_result(*expr, old(self).enum_defs(), old(self).checking_model(), r),
            expr.kind matches ExprKind::Ident(n) ==> old(self).name_result(n@, r),
            expr.kind is Ident ==> *final(self) == *old(self),
            expr.kind is Literal ==> final(self).scopes == old(self).scopes,
            expr.kind matches ExprKind::Block(b) ==> (simple_block_type(b.stmts@) matches Some(t) ==> r == Ok::<Type, String>(t)),
            expr.kind matches ExprKind::Block(b) ==> (b.stmts@.len() > 0 && mismatched_let(b.stmts@[0])
                ==> (r matches Err(m) && m@ == let_mismatch_message(b.stmts@[0]))),
            expr.kind matches ExprKind::BinaryOp { op, left, right } ==> (old(self).atom_type(*left) matches Some(lt)
                ==> (old(self).atom_type(*right) matches Some(rt)
                ==> (r is Ok <==> binop_ok(op, lt, rt, is_int_literal(*left), is_int_literal(*right))))),
            expr.kind matches ExprKind::If { kind: IfKind::Normal, cond: c, then_expr: a, else_expr: Some(b) }
                ==> (old(self).atom_type(*c) == Some(Type::Bool) ==> (old(self).atom_type(*a) matches Some(ta)
                ==> (old(self).atom_type(*b) matches Some(tb) ==> if types_eq(ta, tb) {
                    r matches Ok(t) && type_same(t, ta)
                } else {
                    r is Err
                }))),
            expr.kind matches ExprKind::If { kind: IfKind::Lack, cond: c, then_expr: a, else_expr: None }
                ==> (old(self).atom_type(*c) == Some(Type::Bool) ==> (old(self).atom_type(*a) matches Some(ta)
                ==> if ta == Type::Unit { r == Ok::<Type, String>(Type::Unit) } else { r is Err })),
            expr.kind matches ExprKind::Cast { expr: x, ty: c } ==> (x.kind matches ExprKind::Literal(l)
                ==> if is_numeric(literal_type(l)) && is_numeric(c) { r matches Ok(t) && type_same(t, c) } else { r is Err }),
            expr.kind matches ExprKind::Unary { op: UnaryOp::Neg, expr: inner } ==> (inner.kind matches ExprKind::Cast { expr: x, ty: c }
                ==> (x.kind matches ExprKind::Literal(l) ==> (is_numeric(literal_type(l)) && is_numeric(c)
                    ==> if is_signed_numeric(c) { r matches Ok(t) && type_same(t, c) } else { r is Err }))),
            expr.kind matches ExprKind::Unary { op: UnaryOp::Neg, expr: inner } ==> (inner.kind matches ExprKind::Literal(l)
                ==> if is_signed_numeric(literal_type(l)) { r == Ok::<Type, String>(literal_type(l)) } else { r is Err }),
            expr.kind matches ExprKind::Index { expr: b, index: i } ==> (b.kind matches ExprKind::Literal(Literal::String(_))
                ==> (i.kind matches ExprKind::Literal(li) ==> if is_integer(literal_type(li)) {
                    r == Ok::<Type, String>(Type::U8)
                } else {
                    r matches Err(m) && m@ == "index must be an integer type, got "@ + type_text(literal_type(li))
                })),
            expr.kind matches ExprKind::BinaryOp { op, left, right } ==> (left.kind matches ExprKind::Literal(l1)
                ==> (right.kind matches ExprKind::Literal(l2) ==> (r is Ok <==> binop_ok(op, literal_type(l1), literal_type(l2),
                    is_int_literal(*left), is_int_literal(*right))))),
            expr.kind matches ExprKind::If { kind: IfKind::Normal, cond: c, then_expr: a, else_expr: Some(b) }
                ==> (c.kind matches ExprKind::Literal(Literal::Bool(_)) ==> (a.kind matches ExprKind::Literal(l1)
                    ==> (b.kind matches ExprKind::Literal(l2) ==> if types_eq(literal_type(l1), literal_type(l2)) {
                        r matches Ok(t) && type_same(t, literal_type(l1))
                    } else {
                        r is Err
                    }))),
            expr.kind matches ExprKind::If { kind: IfKind::Lack, cond: c, then_expr: a, else_expr: None }
                ==> (c.kind matches ExprKind::Literal(Literal::Bool(_)) ==> (a.kind matches ExprKind::Literal(l)
                    ==> if literal_type(l) == Type::Unit { r == Ok::<Type, String>(Type::Unit) } else { r is Err })),
            expr.kind matches ExprKind::FieldAccess { field_name, .. } ==> (r is Ok
                ==> some_field_named(old(self).struct_defs(), field_name@)),
            expr.kind matches ExprKind::StructInit { struct_name, .. } ==> (r matches Ok(t) ==>
                struct_index(old(self).struct_defs(), struct_name@) is Some
                && ((t matches Type::Struct(n) && n@ == struct_name@) || (t matches Type::Generic(n, _) && n@ == struct_name@))),
            expr.kind matches ExprKind::EnumVariantConstruction { enum_name, .. } ==> (enum_index(old(self).enum_defs(), enum_name@) is Some
                ==> (r matches Ok(t) ==> (t matches Type::Enum(n) && n@ == enum_name@) || (t matches Type::Generic(n, _) && n@ == enum_name@))),
            expr.kind matches ExprKind::Cast { ty: c, .. } ==> (!is_numeric(c) ==> r is Err)
                && (r matches Ok(t) ==> labeled_as(t, c)),
            expr.kind matches ExprKind::Unary { op: UnaryOp::Neg, .. } ==> (r matches Ok(t) ==> is_signed_numeric(stripped(t))),
            expr.kind matches ExprKind::If { kind: IfKind::Normal, else_expr: None, .. } ==> r is Err,
            expr.kind matches ExprKind::If { kind: IfKind::Lack, else_expr: Some(_), .. } ==> r is Err,
            expr.kind matches ExprKind::If { kind: IfKind::Lack, .. } ==> (r matches Ok(t) ==> t == Type::Unit),
            expr.kind matches ExprKind::If { cond: c, .. } ==> (!old(self).checking_model()
                ==> (old(self).atom_type(*c) matches Some(ct) ==> (!(ct is Bool)
                ==> (r matches Err(m) && m@ == "if condition must be bool"@)))),
            expr.kind matches ExprKind::Match(me) ==> (r is Ok ==> exists|e: int| 0 <= e < old(self).enum_defs().len()
                && #[trigger] arms_fit(me.arms@, old(self).enum_defs()[e])),
            expr.kind matches ExprKind::Match(me) ==> forall|args: Seq<Type>, j: int|
                #[trigger] generic_binding_match(*old(self), me, args, j) ==> (r matches Ok(t) && type_same(t, args[j])),
            expr.kind matches ExprKind::Match(me) ==> (old(self).atom_type(*me.cond) matches Some(t)
                ==> (!(t is Enum) && !(t is Generic) ==> (r matches Err(m) && m@ == "match expression must be on an enum type"@))),
            expr.kind matches ExprKind::BinaryOp { op, left, right } ==> (r matches Ok(t) ==>
                exists|lt: Type, rt: Type| #[trigger] binop_typed(op, *left, *right, lt, rt, t)),
            expr.kind matches ExprKind::LackSlice(e) ==> (r matches Ok(Type::Ref { mutable: false, inner })
                && (*inner matches Type::Slice(x) && type_same(*x, e))),
            expr.kind is Range ==> (r matches Ok(t) ==> t == Type::I32),
            expr.kind matches ExprKind::Unary { op: UnaryOp::Not, .. } ==> (r matches Ok(t) ==> stripped(t) == Type::Bool),
            expr.kind matches ExprKind::If { kind: IfKind::Lack, .. } ==> (r matches Ok(t) ==> t == Type::Unit),
            expr.kind matches ExprKind::ArrayLiteral(es) ==> (r matches Ok(t) ==> t is ConstIntArray)
                && (es@.len() == 0 ==> r is Err),
            expr.kind matches ExprKind::EnumVariantAccess { enum_name, variant_name } ==> match enum_index(old(self).enum_defs(), enum_name@) {
                Some(e) => if variant_index(old(self).enum_defs()[e].variants@, variant_name@) is Some {
                    r matches Ok(Type::Enum(n)) && n@ == enum_name@
                } else {
                    r is Err
                },
                None => r is Err,
            },
        decreases expr, 10int,
    {
        let result: Result<Type, String> = match &expr.kind {
            ExprKind::Ident(name) => return self.check_ident(name),
            ExprKind::Call { .. } => return self.check_call(expr),
            ExprKind::FieldAccess { .. } => return self.check_field_access(expr),
            ExprKind::Literal(lit) => match lit {
                Literal::Int(_) => Ok(Type::I32),
                Literal::Float(_) => Ok(Type::F32),
                Literal::Bool(_) => Ok(Type::Bool),
                Literal::String(_) => Ok(Type::Str),
                Literal::Unit => Ok(Type::Unit),
                Literal::ByteString(_) => Ok(byte_slice_ref()),
            },
            ExprKind::Sym(_) => Ok(Type::I32),
            ExprKind::Closure { param, body } => {
                let mut scope: Vec<(String, Type)> = Vec::new();
                scope.push((param.clone(), Type::F32));
                self.push_scope(scope);
                let body_ty = self.check_expr(body)?;
                self.pop_scope();
                Ok(body_ty)
            },
            ExprKind::BinaryOp { op, left, right } => {
                let ghost s0 = *self;
                let left_ty = self.check_expr(left)?;
                let ghost s1 = *self;
                let right_ty = self.check_expr(right)?;
                proof {
                    if let Some(lt) = s0.atom_type(**left) {
                        if left.kind is Ident {
                            lemma_same_plain(left_ty, lt);
                        }
                        assert(s1.scopes == s0.scopes);
                        if let Some(rt) = s0.atom_type(**right) {
                            assert(s1.atom_type(**right) == Some(rt));
                            if right.kind is Ident {
                                lemma_same_plain(right_ty, rt);
                            }
                        }
                    }
                }
                let res = self.check_binary_op(op, &left_ty, &right_ty, left, right);
                proof {
                    if res is Ok {
                        assert(binop_typed(*op, **left, **right, left_ty, right_ty, res->Ok_0));
                    }
                }
                res
            },
            ExprKind::Unary { op, expr: inner } => {
                let inner_ty = self.check_expr(inner)?;
                let stripped = self.strip_privacy(&inner_ty);
                match op {
                    UnaryOp::Neg => {
                        if !self.is_signed_numeric_type(&stripped) {
                            let t = type_debug(&inner_ty);
                            return Err(cat(&vec!["cannot apply unary `-` to ", t.as_str(),
                                "（只支持有符号数值类型，无符号类型想取负得先 `as` 成有符号类型）"]));
                        }
                        let tag = self.extract_privacy_tag(&inner_ty);
                        assert(crate::sema::stripped(stripped) == stripped);
                        Ok(self.apply_privacy_tag(stripped, tag))
                    },
                    UnaryOp::Not => {
                        if !is_bool_type(&stripped) {
                            let t = type_debug(&inner_ty);
                            return Err(cat(&vec!["cannot apply `!` to non-bool type: ", t.as_str()]));
                        }
                        let tag = self.extract_privacy_tag(&inner_ty);
                        assert(crate::sema::stripped(Type::Bool) == Type::Bool);
                        Ok(self.apply_privacy_tag(Type::Bool, tag))
                    },
                }
            },
            ExprKind::Cast { expr: inner, ty: cast_ty } => {
                let inner_ty = self.check_expr(inner)?;
                let stripped = self.strip_privacy(&inner_ty);
                if !self.is_numeric_type(&stripped) || !self.is_numeric_type(cast_ty) {
                    let a = type_debug(&inner_ty);
                    let b = type_debug(cast_ty);
                    return Err(cat(&vec!["invalid cast: `as` 目前只支持数值类型之间的转换，得到 ", a.as_str(), " as ", b.as_str()]));
                }
                let tag = self.extract_privacy_tag(&inner_ty);
                Ok(self.apply_privacy_tag(copy_type(cast_ty), tag))
            },
            ExprKind::Index { expr: base, index } => {
                let base_ty = self.check_expr(base)?;
                let idx_ty = self.check_expr(index)?;
                let idx_stripped = self.strip_privacy(&idx_ty);
                if !self.is_integer_type(&idx_stripped) {
                    let mut m = String::new();
                    push_str(&mut m, "index must be an integer type, got ");
                    push_type(&mut m, &idx_ty);
                    return Err(m);
                }
                let stripped_base = self.strip_privacy(&base_ty);
                let elem_ty = element_type(&stripped_base)?;
                let tag = self.extract_privacy_tag(&base_ty);
                Ok(self.apply_privacy_tag(elem_ty, tag))
            },
            ExprKind::LackSlice(elem_ty) =>
                Ok(Type::Ref { mutable: false, inner: Box::new(Type::Slice(Box::new(copy_type(elem_ty)))) }),
            ExprKind::Block(block) => self.check_block(block),
            ExprKind::StructInit { struct_name, fields } => self.check_struct_init(struct_name.as_str(), fields, None),
            ExprKind::Range { start, end } => {
                let start_ty = self.check_expr(start)?;
                let end_ty = self.check_expr(end)?;
                let start_ok = match start_ty { Type::I32 | Type::I64 => true, _ => false };
                let end_ok = match end_ty { Type::I32 | Type::I64 => true, _ => false };
                if start_ok && end_ok {
                    Ok(Type::I32)
                } else {
                    Err("range bounds must be integers".to_string())
                }
            },
            ExprKind::If { kind: if_kind, cond, then_expr, else_expr } => {
                let ghost s0 = *self;
                if self.in_model {
                    let cond_ty = self.check_expr(cond)?;
                    let cond_stripped = self.strip_privacy(&cond_ty);
                    if let Type::Tensor { .. } = cond_stripped {
                        return Err("error[MD003]: runtime tensor condition must use explicit dynamic operator `tensor.cond`".to_string());
                    }
                }
                let cond_ty = self.check_expr(cond)?;
                if !is_bool_type(&cond_ty) {
                    return Err("if condition must be bool".to_string());
                }
                let ghost s1 = *self;
                let then_ty = self.check_expr(then_expr)?;
                let ghost s2 = *self;
                proof {
                    if s0.atom_type(**cond) is Some {
                        assert(s1.scopes == s0.scopes);
                        if let Some(ta) = s0.atom_type(**then_expr) {
                            assert(s2.scopes == s0.scopes);
                            if then_expr.kind is Ident {
                                lemma_same_plain(then_ty, ta);
                            }
                        }
                    }
                }
                match if_kind {
                    IfKind::Normal => {
                        let else_ty = match else_expr {
                            Some(e) => {
                                let et = self.check_expr(e)?;
                                proof {
                                    if s0.atom_type(**cond) is Some && s0.atom_type(**then_expr) is Some {
                                        if let Some(tb) = s0.atom_type(**e) {
                                            assert(s2.atom_type(**e) == Some(tb));
                                            if e.kind is Ident {
                                                lemma_same_plain(et, tb);
                                            }
                                        }
                                    }
                                }
                                et
                            },
                            None => {
                                return Err("if expression requires an else branch（如果这个 if 不需要产出值、纯粹是副作用，请显式写成 `lack if`）".to_string());
                            },
                        };
                        if !self.types_equal_with_privacy(&then_ty, &else_ty) {
                            let a = type_debug(&then_ty);
                            let b = type_debug(&else_ty);
                            return Err(cat(&vec!["if branches have different types: then = ", a.as_str(), ", else = ", b.as_str()]));
                        }
                        let joined = self.join_privacy_labels(&then_ty, &else_ty);
                        let base = self.strip_privacy(&then_ty);
                        proof {
                            if let ExprKind::Literal(l1) = &then_expr.kind {
                                lemma_literal_type_plain(*l1);
                                if let Some(e2) = else_expr {
                                    if let ExprKind::Literal(l2) = &e2.kind {
                                        lemma_literal_type_plain(*l2);
                                    }
                                }
                            }
                        }
                        Ok(self.apply_privacy_tag(base, joined))
                    },
                    IfKind::Lack => {
                        if else_expr.is_some() {
                            return Err("`lack if` must not have an else branch（既然写了 else，就该用普通 if，不要用 lack if）".to_string());
                        }
                        let then_inner = self.strip_privacy(&then_ty);
                        if !is_unit_type(&then_inner) {
                            let t = type_debug(&then_ty);
                            return Err(cat(&vec!["`lack if` 的 then 分支必须是 Unit 类型（纯副作用、不产出值），得到 ", t.as_str(),
                                "（如果这个 if 需要产出值，请改成普通 if 并补上 else 分支）"]));
                        }
                        Ok(Type::Unit)
                    },
                }
            },
            ExprKind::ArrayLiteral(elements) => {
                if elements.len() == 0 {
                    return Err("array literal cannot be empty".to_string());
                }
                let mut values: Vec<i64> = Vec::new();
                let mut k: usize = 0;
                while k < elements.len()
                    invariant
                        self.wf(),
                        TypeChecker::tables_kept(*self, *old(self)),
                        TypeChecker::balanced(*self, *old(self)),
                        k <= elements@.len(),
                    decreases elements.len() - k,
                {
                    proof {
                        broadcast use vstd::std_specs::vec::axiom_vec_index_decreases;
                        assert(decreases_to!(*elements => elements[k as int]));
                    }
                    let ty = self.check_expr(&elements[k])?;
                    match ty {
                        Type::I32 | Type::I64 => {
                            match self.eval_const_int_expr(&elements[k]) {
                                Some(v) => values.push(v),
                                None => {
                                    return Err("array element is not a constant integer".to_string());
                                },
                            }
                        },
                        other => {
                            let t = type_debug(&other);
                            return Err(cat(&vec!["array literal elements must be integers, got ", t.as_str()]));
                        },
                    }
                    k += 1;
                }
                Ok(Type::ConstIntArray(values))
            },
            ExprKind::EnumVariantAccess { enum_name, variant_name } => {
                match self.find_enum(enum_name.as_str()) {
                    None => Err(cat(&vec!["undefined enum: ", enum_name.as_str()])),
                    Some(_) => {
                        if !self.has_variant(enum_name.as_str(), variant_name.as_str()) {
                            Err(cat(&vec!["enum ", enum_name.as_str(), " has no variant named ", variant_name.as_str()]))
                        } else {
                            Ok(Type::Enum(enum_name.clone()))
                        }
                    },
                }
            },
            ExprKind::EnumVariantConstruction { enum_name, variant_name, args } =>
                self.check_enum_variant_construction(enum_name.as_str(), variant_name.as_str(), args, None),
            ExprKind::Match(match_expr) => self.check_match_expr(match_expr),
            ExprKind::UnsafeBlock(unsafe_stmt) => self.check_block(&unsafe_stmt.body),
        };
        if let Ok(ty) = &result {
            let recorded = copy_type(ty);
            self.expr_types.insert(expr.id, recorded);
        }
        result
    }
}

} // verus!

verus! {

/// The number of positions of a sliding window over `d` places with padding `p` on each side,
/// kernel `k` and stride `s`: `(d + 2p - k) / s + 1`, the division rounding toward zero.
pub open spec fn window_len(d: int, p: int, k: int, s: int) -> int {
    trunc_div(d + 2 * p - k, s) + 1
}

/// Whether [`window_len`] can be computed step by step within `i64`: `2p`, `d + 2p`,
/// `d + 2p - k`, the quotient and the final `+ 1` all fit, and `s` is not zero.
pub open spec fn window_fits(d: int, p: int, k: int, s: int) -> bool {
    &&& in_i64(2 * p)
    &&& in_i64(d + 2 * p)
    &&& in_i64(d + 2 * p - k)
    &&& s != 0
    &&& in_i64(trunc_div(d + 2 * p - k, s))
    &&& in_i64(window_len(d, p, k, s))
}

/// `(d + 2 * padding - kernel) / stride + 1`, rounding toward zero, where every step fits `i64`.
fn window_out(d: i64, padding: i64, kernel: i64, stride: i64) -> (r: Option<i64>)
    ensures
        match r {
            Some(v) => window_fits(d as int, padding as int, kernel as int, stride as int)
                && v == window_len(d as int, padding as int, kernel as int, stride as int),
            None => !window_fits(d as int, padding as int, kernel as int, stride as int),
        },
{
    let twice = match padding.checked_mul(2) {
        Some(x) => x,
        None => return None,
    };
    let a = match d.checked_add(twice) {
        Some(x) => x,
        None => return None,
    };
    let b = match a.checked_sub(kernel) {
        Some(x) => x,
        None => return None,
    };
    if stride == 0 {
        return None;
    }
    let q = match trunc_div_i64(b, stride) {
        Some(x) => x,
        None => return None,
    };
    q.checked_add(1)
}

/// The constant value of the named argument `name`, where it has one.
#[verifier::opaque]
pub open spec fn int_arg(args: Seq<CallArg>, name: Seq<char>) -> Option<int> {
    match named_arg_index(args, name) {
        Some(i) => const_int_value(call_arg_expr(args[i])),
        None => None,
    }
}

/// A tensor dimension after a sliding window: a constant becomes its [`window_len`], which
/// must be computable and positive (else there is none); any other dimension is unknown.
pub open spec fn window_dim(d: ShapeDim, p: int, k: int, s: int) -> Option<ShapeDim> {
    match d {
        ShapeDim::Const(c) => {
            let v = (c as i64) as int;
            if window_fits(v, p, k, s) && window_len(v, p, k, s) > 0 {
                Some(ShapeDim::Const(window_len(v, p, k, s) as usize))
            } else {
                None
            }
        },
        _ => Some(ShapeDim::Dyn),
    }
}

/// `t` is a tensor of element type `dtype` and, dimension by dimension, shape `shape`.
pub open spec fn tensor_is(t: Type, dtype: Type, shape: Seq<ShapeDim>) -> bool {
    t matches Type::Tensor { dtype: d, shape: s } && type_same(*d, dtype) && s@.len() == shape.len()
        && forall|k: int| 0 <= k < shape.len() ==> shape_dim_same(#[trigger] s@[k], shape[k])
}

/// `t` is a tensor of element type `dtype` and shape `shape`, carrying the privacy label of
/// `recv` where that has one.
pub open spec fn tensor_like(t: Type, recv: Type, dtype: Type, shape: Seq<ShapeDim>) -> bool {
    match privacy_of(recv) {
        None => tensor_is(t, dtype, shape),
        Some(tag) => t matches Type::Privacy(inner, u) && privacy_tag_same(u, tag) && tensor_is(*inner, dtype, shape),
    }
}

/// What `conv2d(x, in: i, out: o, kernel: k, stride: s, padding: p)` gives on an `x` of type
/// `recv`: `x` must be a tensor of 3 (`[C, H, W]`) or 4 (`[B, C, H, W]`) dimensions and `in`,
/// `out` and `kernel` constants; `s` is 1 and `p` 0 where not given. `C` becomes `o`, and `H`
/// and `W` their [`window_dim`], which must exist.
pub open spec fn conv2d_result(recv: Type, args: Seq<CallArg>, r: Result<Type, String>) -> bool {
    match stripped(recv) {
        Type::Tensor { dtype, shape } => {
            let n = shape@.len();
            let c: int = if n == 4 { 1 } else { 0 };
            let h: int = c + 1;
            let w: int = c + 2;
            let s = match int_arg(args, "stride"@) { Some(v) => v, None => 1 };
            let p = match int_arg(args, "padding"@) { Some(v) => v, None => 0 };
            if (n != 3 && n != 4) || int_arg(args, "in"@) is None || int_arg(args, "out"@) is None
                || int_arg(args, "kernel"@) is None {
                r is Err
            } else {
                let k = int_arg(args, "kernel"@)->0;
                let o = int_arg(args, "out"@)->0;
                match (window_dim(shape@[h], p, k, s), window_dim(shape@[w], p, k, s)) {
                    (Some(hd), Some(wd)) => r matches Ok(t) && tensor_like(t, recv, *dtype,
                        shape@.update(c, ShapeDim::Const(o as usize)).update(h, hd).update(w, wd)),
                    _ => r is Err,
                }
            }
        },
        _ => r is Err,
    }
}

/// [`window_dim`] computed; where there is none, the error says whether the length came out
/// non-positive (`true`) or could not be computed (`false`).
fn window_dim_of(d: &ShapeDim, padding: i64, kernel: i64, stride: i64) -> (r: Result<ShapeDim, bool>)
    ensures
        match window_dim(*d, padding as int, kernel as int, stride as int) {
            Some(x) => r == Ok::<ShapeDim, bool>(x),
            None => r is Err,
        },
{
    match d {
        ShapeDim::Const(c) => {
            let v = *c as i64;
            match window_out(v, padding, kernel, stride) {
                Some(len) => {
                    if len <= 0 {
                        Err(true)
                    } else {
                        Ok(ShapeDim::Const(len as usize))
                    }
                },
                None => Err(false),
            }
        },
        _ => Ok(ShapeDim::Dyn),
    }
}

/// A copy of `shape` with the dimensions at `i` and `j` replaced, dimension by dimension the
/// same as `want` where `shape` is as `base` and `want` is `base` so updated.
proof fn lemma_dims_updated(new_shape: Seq<ShapeDim>, shape: Seq<ShapeDim>, base: Seq<ShapeDim>, want: Seq<ShapeDim>)
    requires
        new_shape.len() == shape.len() && shape.len() == base.len() && want.len() == base.len(),
        forall|k: int| 0 <= k < shape.len() ==> shape_dim_same(#[trigger] shape[k], base[k]),
        forall|k: int| 0 <= k < base.len() ==> (#[trigger] want[k] == base[k] || shape_dim_same(new_shape[k], want[k]))
            && (want[k] == base[k] ==> shape_dim_same(new_shape[k], shape[k])),
    ensures
        forall|k: int| 0 <= k < want.len() ==> shape_dim_same(#[trigger] new_shape[k], want[k]),
{
    assert forall|k: int| 0 <= k < want.len() implies shape_dim_same(#[trigger] new_shape[k], want[k]) by {
        if !shape_dim_same(new_shape[k], want[k]) {
            assert(want[k] == base[k]);
            assert(shape_dim_same(shape[k], base[k]));
        }
    }
}

/// What `max_pool2d(x, kernel: k, stride: s)` gives on an `x` of type `recv`: `k` must be a
/// constant, `s` is `k` where not given, `x` a tensor of 3 or 4 dimensions; its last two
/// dimensions become their [`window_dim`] without padding, which must exist.
pub open spec fn max_pool2d_result(recv: Type, args: Seq<CallArg>, r: Result<Type, String>) -> bool {
    match int_arg(args, "kernel"@) {
        None => r is Err,
        Some(k) => {
            let s = match int_arg(args, "stride"@) { Some(v) => v, None => k };
            match stripped(recv) {
                Type::Tensor { dtype, shape } => {
                    let n = shape@.len();
                    let h: int = if n == 4 { 2 } else { 1 };
                    let w: int = h + 1;
                    if n != 3 && n != 4 {
                        r is Err
                    } else {
                        match (window_dim(shape@[h], 0, k, s), window_dim(shape@[w], 0, k, s)) {
                            (Some(hd), Some(wd)) => r matches Ok(t)
                                && tensor_like(t, recv, *dtype, shape@.update(h, hd).update(w, wd)),
                            _ => r is Err,
                        }
                    }
                },
                _ => r is Err,
            }
        },
    }
}

/// What `linear(x, in: i, out: o)` gives on an `x` of type `recv`: `i` and `o` must be
/// constants and `x` a tensor of at least one dimension whose last dimension, where it is a
/// constant, is `i`; that dimension becomes `o`.
pub open spec fn linear_result(recv: Type, args: Seq<CallArg>, r: Result<Type, String>) -> bool {
    match (int_arg(args, "in"@), int_arg(args, "out"@)) {
        (Some(i), Some(o)) => match stripped(recv) {
            Type::Tensor { dtype, shape } => {
                let n = shape@.len();
                if n == 0 {
                    r is Err
                } else if shape@[n - 1] matches ShapeDim::Const(c) && c != (i as usize) {
                    r is Err
                } else {
                    r matches Ok(t) && tensor_like(t, recv, *dtype, shape@.update(n - 1, ShapeDim::Const(o as usize)))
                }
            },
            _ => r is Err,
        },
        _ => r is Err,
    }
}

/// What `embedding(x, num_embeddings: n, embedding_dim: d)` gives on an `x` of type `recv`:
/// `n` and `d` must be constants and `x` a tensor; the result is an `f32` tensor of `x`'s shape
/// with one more dimension `d`.
pub open spec fn embedding_result(recv: Type, args: Seq<CallArg>, r: Result<Type, String>) -> bool {
    match (int_arg(args, "num_embeddings"@), int_arg(args, "embedding_dim"@)) {
        (Some(_), Some(d)) => match stripped(recv) {
            Type::Tensor { shape, .. } => r matches Ok(t)
                && tensor_like(t, recv, Type::F32, shape@.push(ShapeDim::Const(d as usize))),
            _ => r is Err,
        },
        _ => r is Err,
    }
}

/// Whether the first `n` dimensions are all constants.
pub open spec fn consts_before(shape: Seq<ShapeDim>, n: int) -> bool {
    forall|j: int| 0 <= j < n ==> #[trigger] shape[j] is Const
}

/// The product of the first `n` dimensions, all constants.
pub open spec fn dims_product(shape: Seq<ShapeDim>, n: int) -> int
    decreases n,
{
    if n <= 0 {
        1
    } else {
        dims_product(shape, n - 1) * (shape[n - 1]->Const_0 as int)
    }
}

/// Some product of leading constant dimensions exceeds `usize`.
pub open spec fn dims_overflow(shape: Seq<ShapeDim>) -> bool {
    exists|j: int| 0 < j <= shape.len() && consts_before(shape, j) && #[trigger] dims_product(shape, j) > usize::MAX
}

/// What `flatten(x)` gives on an `x` of type `recv`: `x` must be a tensor; where all its
/// dimensions are constants, a one-dimensional tensor of their product (no leading product
/// may exceed `usize`), otherwise `x`'s shape.
pub open spec fn flatten_result(recv: Type, r: Result<Type, String>) -> bool {
    match stripped(recv) {
        Type::Tensor { dtype, shape } => if dims_overflow(shape@) {
            r is Err
        } else if consts_before(shape@, shape@.len() as int) {
            r matches Ok(t) && tensor_like(t, recv, *dtype, seq![ShapeDim::Const(dims_product(shape@, shape@.len() as int) as usize)])
        } else {
            r matches Ok(t) && tensor_like(t, recv, *dtype, shape@)
        },
        _ => r is Err,
    }
}

proof fn lemma_window_dim_same(a: ShapeDim, b: ShapeDim, p: int, k: int, s: int)
    requires
        shape_dim_same(a, b),
    ensures
        window_dim(a, p, k, s) == window_dim(b, p, k, s),
{
}

fn copy_shape(shape: &Vec<ShapeDim>) -> (r: Vec<ShapeDim>)
    ensures
        r@.len() == shape@.len(),
        forall|k: int| 0 <= k < shape@.len() ==> shape_dim_same(#[trigger] r@[k], shape@[k]),
{
    let mut out: Vec<ShapeDim> = Vec::new();
    let mut k: usize = 0;
    while k < shape.len()
        invariant
            k <= shape@.len(),
            out@.len() == k,
            forall|j: int| 0 <= j < k ==> shape_dim_same(#[trigger] out@[j], shape@[j]),
        decreases shape.len() - k,
    {
        out.push(copy_shape_dim(&shape[k]));
        k += 1;
    }
    out
}

fn to_usize(v: i64) -> (r: usize)
    ensures
        r == v as usize,
{
    #[verifier::truncate]
    (v as usize)
}

impl TypeChecker {
    /// `embedding(x, num_embeddings: n, embedding_dim: d)`: a float tensor with the shape of
    /// `x` and one more dimension `d`, with `x`'s label.
    fn embedding_type(&self, receiver_ty: &Type, args: &Vec<CallArg>) -> (r: Result<Type, String>)
        ensures
            embedding_result(*receiver_ty, args@, r),
    {
        let _num_embeddings = self.extract_int_arg(args, "num_embeddings")?;
        let embedding_dim = self.extract_int_arg(args, "embedding_dim")?;
        let stripped = self.strip_privacy(receiver_ty);
        let ghost st = crate::sema::stripped(*receiver_ty);
        match stripped {
            Type::Tensor { shape, .. } => {
                let ghost sshape = st->shape@;
                let mut new_shape = copy_shape(&shape);
                new_shape.push(ShapeDim::Const(to_usize(embedding_dim)));
                proof {
                    let want = sshape.push(ShapeDim::Const(embedding_dim as usize));
                    assert forall|k: int| 0 <= k < want.len() implies shape_dim_same(#[trigger] new_shape@[k], want[k]) by {
                        if k < sshape.len() {
                            assert(shape_dim_same(new_shape@[k], shape@[k]));
                            assert(shape_dim_same(shape@[k], sshape[k]));
                        }
                    }
                }
                let tag = self.extract_privacy_tag(receiver_ty);
                Ok(self.apply_privacy_tag(Type::Tensor { dtype: Box::new(Type::F32), shape: new_shape }, tag))
            },
            _ => {
                let t = type_debug(receiver_ty);
                Err(cat(&vec!["embedding expects a tensor, got ", t.as_str()]))
            },
        }
    }

    /// `linear(x, in: i, out: o)`: `x` with its last dimension (which must be `i` where it is
    /// constant) replaced by `o`.
    fn linear_type(&self, receiver_ty: &Type, args: &Vec<CallArg>) -> (r: Result<Type, String>)
        ensures
            linear_result(*receiver_ty, args@, r),
    {
        let in_val = self.extract_int_arg(args, "in")?;
        let out_val = self.extract_int_arg(args, "out")?;
        let stripped = self.strip_privacy(receiver_ty);
        let ghost st = crate::sema::stripped(*receiver_ty);
        match stripped {
            Type::Tensor { dtype, shape } => {
                let ghost sshape = st->shape@;
                assert(type_same(*dtype, *st->dtype) && shape@.len() == sshape.len());
                let n = shape.len();
                if n > 0 {
                    assert(shape_dim_same(shape@[n - 1], sshape[n - 1]));
                    if let ShapeDim::Const(c) = &shape[n - 1] {
                        if *c != to_usize(in_val) {
                            let mut m = String::new();
                            push_str(&mut m, "shape mismatch in linear: input last dim ");
                            push_decimal(&mut m, *c);
                            push_str(&mut m, " does not match 'in' value ");
                            crate::text::push_i64_decimal(&mut m, in_val);
                            return Err(m);
                        }
                    }
                    let mut new_shape = copy_shape(&shape);
                    new_shape.set(n - 1, ShapeDim::Const(to_usize(out_val)));
                    proof {
                        let want = sshape.update(n - 1, ShapeDim::Const(out_val as usize));
                        assert forall|k: int| 0 <= k < want.len() implies shape_dim_same(#[trigger] new_shape@[k], want[k]) by {
                            if k != n - 1 {
                                assert(shape_dim_same(new_shape@[k], shape@[k]));
                                assert(shape_dim_same(shape@[k], sshape[k]));
                            }
                        }
                    }
                    let tag = self.extract_privacy_tag(receiver_ty);
                    Ok(self.apply_privacy_tag(Type::Tensor { dtype, shape: new_shape }, tag))
                } else {
                    Err("tensor must have at least one dimension for linear".to_string())
                }
            },
            _ => {
                let t = type_debug(receiver_ty);
                Err(cat(&vec!["linear expects a tensor, got ", t.as_str()]))
            },
        }
    }

    /// `conv2d(x, in: i, out: o, kernel: k, stride: s, padding: p)` on a `[C, H, W]` or
    /// `[B, C, H, W]` tensor: `C` becomes `o`, constant `H` and `W` become
    /// `(d + 2p - k) / s + 1` (which must be positive), others become dynamic.
    #[verifier::rlimit(60)]
    fn conv2d_type(&self, receiver_ty: &Type, args: &Vec<CallArg>) -> (r: Result<Type, String>)
        ensures
            conv2d_result(*receiver_ty, args@, r),
    {
        let stripped = self.strip_privacy(receiver_ty);
        let ghost st = crate::sema::stripped(*receiver_ty);
        match stripped {
            Type::Tensor { dtype, shape } => {
                let ghost sdtype = st->dtype;
                let ghost sshape = st->shape@;
                assert(type_same(*dtype, *sdtype) && shape@.len() == sshape.len());
                let n = shape.len();
                if n != 3 && n != 4 {
                    return Err("conv2d expects 3D [C, H, W] or 4D [B, C, H, W] tensor".to_string());
                }
                let (c_idx, h_idx, w_idx): (usize, usize, usize) = if n == 4 { (1, 2, 3) } else { (0, 1, 2) };
                let _in_channels = self.extract_int_arg(args, "in")?;
                let out_channels = self.extract_int_arg(args, "out")?;
                let kernel = self.extract_int_arg(args, "kernel")?;
                let stride = match self.extract_int_arg(args, "stride") {
                    Ok(v) => v,
                    Err(_) => 1,
                };
                let padding = match self.extract_int_arg(args, "padding") {
                    Ok(v) => v,
                    Err(_) => 0,
                };
                proof {
                    assert(shape_dim_same(shape@[h_idx as int], sshape[h_idx as int]));
                    assert(shape_dim_same(shape@[w_idx as int], sshape[w_idx as int]));
                    lemma_window_dim_same(shape@[h_idx as int], sshape[h_idx as int], padding as int, kernel as int, stride as int);
                    lemma_window_dim_same(shape@[w_idx as int], sshape[w_idx as int], padding as int, kernel as int, stride as int);
                }
                let h_out = match window_dim_of(&shape[h_idx], padding, kernel, stride) {
                    Ok(d) => d,
                    Err(true) => return Err("conv2d output height non-positive".to_string()),
                    Err(false) => return Err("conv2d output height out of range".to_string()),
                };
                let w_out = match window_dim_of(&shape[w_idx], padding, kernel, stride) {
                    Ok(d) => d,
                    Err(true) => return Err("conv2d output width non-positive".to_string()),
                    Err(false) => return Err("conv2d output width out of range".to_string()),
                };
                let mut new_shape = copy_shape(&shape);
                new_shape.set(c_idx, ShapeDim::Const(to_usize(out_channels)));
                new_shape.set(h_idx, h_out);
                new_shape.set(w_idx, w_out);
                proof {
                    let want = sshape.update(c_idx as int, ShapeDim::Const(out_channels as usize))
                        .update(h_idx as int, h_out).update(w_idx as int, w_out);
                    lemma_dims_updated(new_shape@, shape@, sshape, want);
                }
                let tag = self.extract_privacy_tag(receiver_ty);
                Ok(self.apply_privacy_tag(Type::Tensor { dtype, shape: new_shape }, tag))
            },
            _ => {
                let t = type_debug(receiver_ty);
                Err(cat(&vec!["conv2d expects a tensor, got ", t.as_str()]))
            },
        }
    }

    /// `max_pool2d(x, kernel: k, stride: s)` (`s` defaults to `k`) on a 3- or 4-dimensional
    /// tensor: constant `H` and `W` become `(d - k) / s + 1`, which must be positive.
    fn max_pool2d_type(&self, receiver_ty: &Type, args: &Vec<CallArg>) -> (r: Result<Type, String>)
        ensures
            max_pool2d_result(*receiver_ty, args@, r),
    {
        let kernel = self.extract_int_arg(args, "kernel")?;
        let stride = match self.extract_int_arg(args, "stride") {
            Ok(v) => v,
            Err(_) => kernel,
        };
        let stripped = self.strip_privacy(receiver_ty);
        let ghost st = crate::sema::stripped(*receiver_ty);
        match stripped {
            Type::Tensor { dtype, shape } => {
                let ghost sshape = st->shape@;
                assert(type_same(*dtype, *st->dtype) && shape@.len() == sshape.len());
                let n = shape.len();
                if n != 3 && n != 4 {
                    return Err("max_pool2d expects 3D or 4D tensor".to_string());
                }
                let (h_idx, w_idx): (usize, usize) = if n == 4 { (2, 3) } else { (1, 2) };
                proof {
                    assert(shape_dim_same(shape@[h_idx as int], sshape[h_idx as int]));
                    assert(shape_dim_same(shape@[w_idx as int], sshape[w_idx as int]));
                    lemma_window_dim_same(shape@[h_idx as int], sshape[h_idx as int], 0, kernel as int, stride as int);
                    lemma_window_dim_same(shape@[w_idx as int], sshape[w_idx as int], 0, kernel as int, stride as int);
                }
                let h_out = match window_dim_of(&shape[h_idx], 0, kernel, stride) {
                    Ok(d) => d,
                    Err(true) => return Err("max_pool2d output height non-positive".to_string()),
                    Err(false) => return Err("max_pool2d output height out of range".to_string()),
                };
                let w_out = match window_dim_of(&shape[w_idx], 0, kernel, stride) {
                    Ok(d) => d,
                    Err(true) => return Err("max_pool2d output width non-positive".to_string()),
                    Err(false) => return Err("max_pool2d output width out of range".to_string()),
                };
                let mut new_shape = copy_shape(&shape);
                new_shape.set(h_idx, h_out);
                new_shape.set(w_idx, w_out);
                proof {
                    let want = sshape.update(h_idx as int, h_out).update(w_idx as int, w_out);
                    lemma_dims_updated(new_shape@, shape@, sshape, want);
                }
                let tag = self.extract_privacy_tag(receiver_ty);
                Ok(self.apply_privacy_tag(Type::Tensor { dtype, shape: new_shape }, tag))
            },
            _ => {
                let t = type_debug(receiver_ty);
                Err(cat(&vec!["max_pool2d expects a tensor, got ", t.as_str()]))
            },
        }
    }

    /// `flatten(x)`: a one-dimensional tensor of the product of the dimensions where all are
    /// constant, `x`'s shape otherwise.
    fn flatten_type(&self, receiver_ty: &Type) -> (r: Result<Type, String>)
        ensures
            flatten_result(*receiver_ty, r),
    {
        let stripped = self.strip_privacy(receiver_ty);
        let ghost st = crate::sema::stripped(*receiver_ty);
        match stripped {
            Type::Tensor { dtype, shape } => {
                let ghost sshape = st->shape@;
                assert(type_same(*dtype, *st->dtype) && shape@.len() == sshape.len());
                let mut total: usize = 1;
                let mut all_const = true;
                let mut k: usize = 0;
                while k < shape.len()
                    invariant_except_break
                        all_const,
                    invariant
                        k <= shape@.len(),
                        st == crate::sema::stripped(*receiver_ty),
                        st matches Type::Tensor { shape: s0, .. } && s0@ == sshape,
                        shape@.len() == sshape.len(),
                        forall|j: int| 0 <= j < shape@.len() ==> shape_dim_same(#[trigger] shape@[j], sshape[j]),
                        consts_before(sshape, k as int),
                        total == dims_product(sshape, k as int),
                        forall|j: int| 0 < j <= k ==> #[trigger] dims_product(sshape, j) <= usize::MAX,
                    ensures
                        all_const ==> k == shape@.len(),
                        !all_const ==> k < shape@.len() && !(sshape[k as int] is Const),
                    decreases shape.len() - k,
                {
                    assert(shape_dim_same(shape@[k as int], sshape[k as int]));
                    if let ShapeDim::Const(c) = &shape[k] {
                        total = match total.checked_mul(*c) {
                            Some(t) => t,
                            None => {
                                proof {
                                    assert(consts_before(sshape, k as int + 1));
                                    assert(dims_product(sshape, k as int + 1) > usize::MAX);
                                }
                                return Err("flatten: tensor size out of range".to_string());
                            },
                        };
                    } else {
                        all_const = false;
                        break;
                    }
                    k += 1;
                }
                proof {
                    if dims_overflow(sshape) {
                        let j = choose|j: int| 0 < j <= sshape.len() && consts_before(sshape, j)
                            && #[trigger] dims_product(sshape, j) > usize::MAX;
                        if j > k {
                            assert(!(sshape[k as int] is Const));
                        }
                    }
                }
                let tag = self.extract_privacy_tag(receiver_ty);
                let result_ty = if all_const {
                    let mut new_shape: Vec<ShapeDim> = Vec::new();
                    new_shape.push(ShapeDim::Const(total));
                    Type::Tensor { dtype, shape: new_shape }
                } else {
                    proof {
                        assert(!consts_before(sshape, sshape.len() as int));
                    }
                    Type::Tensor { dtype, shape }
                };
                Ok(self.apply_privacy_tag(result_ty, tag))
            },
            _ => {
                let t = type_debug(receiver_ty);
                Err(cat(&vec!["flatten expects a tensor, got ", t.as_str()]))
            },
        }
    }
}

} // verus!

verus! {

impl TypeChecker {
    /// Checks a call: a qualified static call, a bare enum variant, the builtins (`print`,
    /// `panic`, `from_utf8_unchecked`, the tensor operators), a call of another model, a
    /// function (generic parameters bound from the arguments), or a method.
    #[verifier::loop_isolation(false)]
    fn check_call(&mut self, expr: &Expr) -> (r: Result<Type, String>)
        requires
            old(self).wf(),
        ensures
            TypeChecker::tables_kept(*final(self), *old(self)),
            r is Ok ==> TypeChecker::balanced(*final(self), *old(self)),
            builtin_result(*expr, old(self).enum_defs(), old(self).checking_model(), r),
        decreases expr, 9int,
    {
        let (qualifier, func, args, is_method) = match &expr.kind {
            ExprKind::Call { qualifier, func, args, is_method } => (qualifier, func, args, *is_method),
            _ => return Err("expected a call".to_string()),
        };
        if let Some(q) = qualifier {
            return self.check_qualified_static_call(q.as_str(), func.as_str(), args, None);
        }
        if !is_method {
            match self.resolve_bare_variant(func.as_str()) {
                BareVariantOutcome::Unique(e) => {
                    return self.check_enum_variant_construction(e.as_str(), func.as_str(), args, None);
                },
                BareVariantOutcome::Ambiguous(names) => {
                    let mut m = String::new();
                    push_str(&mut m, "ambiguous bare variant `");
                    push_str(&mut m, func.as_str());
                    push_str(&mut m, "`: matches multiple enums (");
                    let mut k: usize = 0;
                    while k < names.len()
                        invariant
                            k <= names@.len(),
                        decreases names.len() - k,
                    {
                        if k > 0 {
                            push_str(&mut m, ", ");
                        }
                        push_str(&mut m, names[k].as_str());
                        k += 1;
                    }
                    push_str(&mut m, "), use a qualified path like EnumName::");
                    push_str(&mut m, func.as_str());
                    push_str(&mut m, "(...)");
                    return Err(m);
                },
                BareVariantOutcome::NotFound => {},
            }
        }
        proof {
            reveal_strlit("print");
            reveal_strlit("panic");
            reveal_strlit("from_utf8_unchecked");
            assert("print"@[1] != "panic"@[1]);
        }
        if str_eq(func.as_str(), "print") {
            if self.in_model {
                return Err("error[MD001]: side-effect not allowed in model block".to_string());
            }
            let mut k: usize = 0;
            while k < args.len()
                invariant
                    self.wf(),
                    TypeChecker::tables_kept(*self, *old(self)),
                    TypeChecker::balanced(*self, *old(self)),
                    k <= args@.len(),
                decreases args.len() - k,
            {
                proof {
                    broadcast use vstd::std_specs::vec::axiom_vec_index_decreases;
                    assert(decreases_to!(*args => args[k as int]));
                }
                self.check_call_arg(&args[k])?;
                k += 1;
            }
            proof {
                reveal_strlit("print");
                reveal_strlit("panic");
                reveal_strlit("from_utf8_unchecked");
                assert("print"@[1] != "panic"@[1]);
                assert("print"@.len() != "from_utf8_unchecked"@.len());
            }
            return Ok(Type::I32);
        }
        if str_eq(func.as_str(), "panic") {
            if args.len() != 1 {
                return Err("`panic` expects exactly 1 argument (a message)".to_string());
            }
            proof {
                broadcast use vstd::std_specs::vec::axiom_vec_index_decreases;
                assert(decreases_to!(*args => args[0]));
            }
            let arg_ty = self.check_call_arg(&args[0])?;
            let stripped = self.strip_privacy(&arg_ty);
            if !is_str_type(&stripped) {
                let t = type_debug(&arg_ty);
                return Err(cat(&vec!["`panic` expects a string argument, got ", t.as_str()]));
            }
            return Ok(Type::Unit);
        }
        if str_eq(func.as_str(), "from_utf8_unchecked") {
            if args.len() != 1 {
                return Err("`from_utf8_unchecked` expects exactly 1 argument".to_string());
            }
            proof {
                broadcast use vstd::std_specs::vec::axiom_vec_index_decreases;
                assert(decreases_to!(*args => args[0]));
            }
            let arg_ty = self.check_call_arg(&args[0])?;
            let expected_arg_ty = byte_slice_ref();
            let stripped = self.strip_privacy(&arg_ty);
            if !self.types_equal(&stripped, &expected_arg_ty) {
                let t = type_debug(&arg_ty);
                return Err(cat(&vec!["`from_utf8_unchecked` expects &[u8], got ", t.as_str()]));
            }
            return Ok(Type::Ref { mutable: false, inner: Box::new(Type::Str) });
        }
        if let Some(ty) = self.try_cross_model_call(func.as_str(), args)? {
            return Ok(ty);
        }
        if self.in_model && find_string(&self.fn_stack, func.as_str()).is_some() {
            return Err("error[MD002]: recursion not allowed in model block; graph must be topologically sortable".to_string());
        }
        if !is_method {
            if let Some(fi) = find_fn_in(&self.functions, func.as_str()) {
                let fn_params = crate::ast::copy_params(&self.functions[fi].params);
                let fn_return = copy_opt_type(&self.functions[fi].return_type);
                if fn_params.len() != args.len() {
                    let mut m = String::new();
                    push_str(&mut m, "function `");
                    push_str(&mut m, func.as_str());
                    push_str(&mut m, "` expects ");
                    push_decimal(&mut m, fn_params.len());
                    push_str(&mut m, " arguments, got ");
                    push_decimal(&mut m, args.len());
                    return Err(m);
                }
                let mut bindings: Vec<(String, Type)> = Vec::new();
                let mut k: usize = 0;
                while k < fn_params.len()
                    invariant
                        self.wf(),
                        TypeChecker::tables_kept(*self, *old(self)),
                        TypeChecker::balanced(*self, *old(self)),
                        k <= fn_params@.len(),
                        fn_params@.len() == args@.len(),
                    decreases fn_params.len() - k,
                {
                    proof {
                        broadcast use vstd::std_specs::vec::axiom_vec_index_decreases;
                        assert(decreases_to!(*args => args[k as int]));
                    }
                    let arg_ty = self.check_call_arg(&args[k])?;
                    if !self.unify_type(&arg_ty, &fn_params[k].ty, &mut bindings) {
                        let p = type_debug(&fn_params[k].ty);
                        let a = type_debug(&arg_ty);
                        return Err(cat(&vec!["type mismatch in call to `", func.as_str(), "`: parameter `",
                            fn_params[k].name.as_str(), "` expected ", p.as_str(), ", got ", a.as_str()]));
                    }
                    k += 1;
                }
                return Ok(match &fn_return {
                    Some(ret) => self.substitute_type(ret, &bindings),
                    None => Type::Unit,
                });
            }
        }
        if str_eq(func.as_str(), "tensor.cond") {
            let (input_i, _) = self.get_call_arg_by_pos_or_name(args, 0, "input")?;
            let (cond_i, _) = self.get_call_arg_by_pos_or_name(args, 1, "condition")?;
            let (then_i, _) = self.get_call_arg_by_pos_or_name(args, 2, "then")?;
            let (else_i, _) = self.get_call_arg_by_pos_or_name(args, 3, "else")?;
            proof {
                broadcast use vstd::std_specs::vec::axiom_vec_index_decreases;
                assert(decreases_to!(*args => args[input_i as int]));
                assert(decreases_to!(*args => args[cond_i as int]));
                assert(decreases_to!(*args => args[then_i as int]));
                assert(decreases_to!(*args => args[else_i as int]));
            }
            let input_ty = self.check_call_arg(&args[input_i])?;
            let cond_expr = match &args[cond_i] { CallArg::Positional(e) => e, CallArg::Named(_, e) => e };
            let then_expr = match &args[then_i] { CallArg::Positional(e) => e, CallArg::Named(_, e) => e };
            let else_expr = match &args[else_i] { CallArg::Positional(e) => e, CallArg::Named(_, e) => e };
            let _ = self.check_closure(cond_expr, &input_ty, Some(&Type::Bool))?;
            let then_ty = self.check_closure(then_expr, &input_ty, Some(&input_ty))?;
            let else_ty = self.check_closure(else_expr, &input_ty, Some(&input_ty))?;
            if !self.types_equal_with_privacy(&then_ty, &else_ty) {
                return Err("tensor.cond 'then' and 'else' branches have different types".to_string());
            }
            return Ok(input_ty);
        }
        if str_eq(func.as_str(), "tensor.while_loop") {
            let (init_i, _) = self.get_call_arg_by_pos_or_name(args, 0, "init")?;
            let (cond_i, _) = self.get_call_arg_by_pos_or_name(args, 1, "cond")?;
            let (body_i, _) = self.get_call_arg_by_pos_or_name(args, 2, "body")?;
            proof {
                broadcast use vstd::std_specs::vec::axiom_vec_index_decreases;
                assert(decreases_to!(*args => args[init_i as int]));
                assert(decreases_to!(*args => args[cond_i as int]));
                assert(decreases_to!(*args => args[body_i as int]));
            }
            let init_ty = self.check_call_arg(&args[init_i])?;
            let cond_expr = match &args[cond_i] { CallArg::Positional(e) => e, CallArg::Named(_, e) => e };
            let body_expr = match &args[body_i] { CallArg::Positional(e) => e, CallArg::Named(_, e) => e };
            let _ = self.check_closure(cond_expr, &init_ty, Some(&Type::Bool))?;
            let _ = self.check_closure(body_expr, &init_ty, Some(&init_ty))?;
            return Ok(init_ty);
        }
        if str_eq(func.as_str(), "embedding") {
            if args.len() < 2 {
                return Err("embedding requires at least two arguments".to_string());
            }
            proof {
                broadcast use vstd::std_specs::vec::axiom_vec_index_decreases;
                assert(decreases_to!(*args => args[0]));
            }
            let receiver_ty = self.get_arg_type(&args[0])?;
            return self.embedding_type(&receiver_ty, args);
        }
        if str_eq(func.as_str(), "linear") {
            if args.len() < 2 {
                return Err("linear requires at least two arguments".to_string());
            }
            proof {
                broadcast use vstd::std_specs::vec::axiom_vec_index_decreases;
                assert(decreases_to!(*args => args[0]));
            }
            let receiver_ty = self.get_arg_type(&args[0])?;
            return self.linear_type(&receiver_ty, args);
        }
        if str_eq(func.as_str(), "conv2d") {
            if args.len() < 2 {
                return Err("conv2d requires at least 2 arguments".to_string());
            }
            proof {
                broadcast use vstd::std_specs::vec::axiom_vec_index_decreases;
                assert(decreases_to!(*args => args[0]));
            }
            let receiver_ty = self.get_arg_type(&args[0])?;
            return self.conv2d_type(&receiver_ty, args);
        }
        if str_eq(func.as_str(), "max_pool2d") {
            if args.len() < 1 {
                return Err("max_pool2d requires at least 1 argument".to_string());
            }
            proof {
                broadcast use vstd::std_specs::vec::axiom_vec_index_decreases;
                assert(decreases_to!(*args => args[0]));
            }
            let receiver_ty = self.get_arg_type(&args[0])?;
            return self.max_pool2d_type(&receiver_ty, args);
        }
        if str_eq(func.as_str(), "flatten") {
            if args.len() < 1 {
                return Err("flatten requires at least 1 argument".to_string());
            }
            proof {
                broadcast use vstd::std_specs::vec::axiom_vec_index_decreases;
                assert(decreases_to!(*args => args[0]));
            }
            let receiver_ty = self.get_arg_type(&args[0])?;
            return self.flatten_type(&receiver_ty);
        }
        if str_eq(func.as_str(), "reshape") {
            if args.len() < 2 {
                return Err("reshape requires target shape".to_string());
            }
            proof {
                broadcast use vstd::std_specs::vec::axiom_vec_index_decreases;
                assert(decreases_to!(*args => args[0]));
                assert(decreases_to!(*args => args[1]));
            }
            let receiver_ty = self.get_arg_type(&args[0])?;
            let arg_ty = self.check_call_arg(&args[1])?;
            let vals = match arg_ty {
                Type::ConstIntArray(vals) => vals,
                _ => return Err("reshape expects a constant integer array for shape".to_string()),
            };
            let mut new_shape: Vec<ShapeDim> = Vec::new();
            let mut k: usize = 0;
            while k < vals.len()
                invariant
                    k <= vals@.len(),
                decreases vals.len() - k,
            {
                new_shape.push(ShapeDim::Const(to_usize(vals[k])));
                k += 1;
            }
            let stripped = self.strip_privacy(&receiver_ty);
            let dtype = match stripped {
                Type::Tensor { dtype, .. } => dtype,
                _ => return Err("reshape expects a tensor".to_string()),
            };
            let tag = self.extract_privacy_tag(&receiver_ty);
            return Ok(self.apply_privacy_tag(Type::Tensor { dtype, shape: new_shape }, tag));
        }
        if str_eq(func.as_str(), "relu") || str_eq(func.as_str(), "dropout") || str_eq(func.as_str(), "layer_norm") {
            if args.len() < 1 {
                return Err(cat(&vec![func.as_str(), " requires at least 1 argument"]));
            }
            proof {
                broadcast use vstd::std_specs::vec::axiom_vec_index_decreases;
                assert(decreases_to!(*args => args[0]));
            }
            return self.get_arg_type(&args[0]);
        }
        if str_eq(func.as_str(), "sum") {
            if args.len() < 1 {
                return Err("sum requires at least 1 argument".to_string());
            }
            proof {
                broadcast use vstd::std_specs::vec::axiom_vec_index_decreases;
                assert(decreases_to!(*args => args[0]));
            }
            let _ = self.get_arg_type(&args[0])?;
            return Ok(Type::F32);
        }
        if is_method {
            return self.check_method_call(expr);
        }
        if self.in_model && self.is_model_name(func.as_str()) {
            if let Some(ty) = self.try_cross_model_call(func.as_str(), args)? {
                return Ok(ty);
            }
        }
        let mut k: usize = 0;
        while k < args.len()
            invariant
                self.wf(),
                TypeChecker::tables_kept(*self, *old(self)),
                TypeChecker::balanced(*self, *old(self)),
                k <= args@.len(),
            decreases args.len() - k,
        {
            proof {
                broadcast use vstd::std_specs::vec::axiom_vec_index_decreases;
                assert(decreases_to!(*args => args[k as int]));
            }
            self.check_call_arg(&args[k])?;
            k += 1;
        }
        Err(cat(&vec!["undefined function or method: ", func.as_str()]))
    }

    /// A method call `receiver.func(args)`: a method of a primitive type, a method filed from
    /// an implement block (the receiver matched against the block's target type, the
    /// arguments against the parameters), or else any other method, typed `i32`.
    #[verifier::loop_isolation(false)]
    fn check_method_call(&mut self, expr: &Expr) -> (r: Result<Type, String>)
        requires
            old(self).wf(),
        ensures
            TypeChecker::tables_kept(*final(self), *old(self)),
            r is Ok ==> TypeChecker::balanced(*final(self), *old(self)),
            expr.kind matches ExprKind::Call { args, .. } ==> (args@.len() == 0 ==> r is Err),
            expr.kind matches ExprKind::Call { func, args, .. } ==> (args@.len() == 1 && func@ == "len"@
                && (call_arg_expr(args@[0]).kind matches ExprKind::Ident(n) && !(n@ == "self"@ && old(self).self_type() is Some)
                    && old(self).var_type(n@) == Some(Type::Str))
                ==> r == Ok::<Type, String>(Type::U64)),
        decreases expr, 8int,
    {
        let (func, args) = match &expr.kind {
            ExprKind::Call { func, args, .. } => (func, args),
            _ => return Err("expected a call".to_string()),
        };
        if args.len() == 0 {
            return Err("method call requires a receiver".to_string());
        }
        proof {
            broadcast use vstd::std_specs::vec::axiom_vec_index_decreases;
            assert(decreases_to!(*args => args[0]));
        }
        let receiver_ty = self.check_call_arg(&args[0])?;
        let receiver_stripped = self.strip_privacy(&receiver_ty);
        let receiver_base = self.strip_ref(&receiver_stripped);
        if let Some(ret_ty) = self.builtin_primitive_method_return_type(&receiver_base, func.as_str()) {
            let mut k: usize = 1;
            while k < args.len()
                invariant
                    self.wf(),
                    TypeChecker::tables_kept(*self, *old(self)),
                    TypeChecker::balanced(*self, *old(self)),
                    1 <= k <= args@.len(),
                decreases args.len() - k,
            {
                proof {
                    broadcast use vstd::std_specs::vec::axiom_vec_index_decreases;
                    assert(decreases_to!(*args => args[k as int]));
                }
                self.check_call_arg(&args[k])?;
                k += 1;
            }
            return Ok(ret_ty);
        }
        if let Some(key) = Self::type_key_for_impl_target(&receiver_stripped) {
            if let Some(method_info) = self.method_info(key.as_str(), func.as_str()) {
                let mut bindings: Vec<(String, Type)> = Vec::new();
                if !self.unify_type(&receiver_stripped, &method_info.target_type, &mut bindings) {
                    let a = type_debug(&receiver_ty);
                    let b = type_debug(&method_info.target_type);
                    return Err(cat(&vec!["receiver type ", a.as_str(), " does not match implement target ", b.as_str(),
                        " for method `", func.as_str(), "`"]));
                }
                let params = &method_info.fn_def.params;
                let idx = non_self_params(params);
                let extra = args.len() - 1;
                if idx.len() != extra {
                    let mut m = String::new();
                    push_str(&mut m, "method `");
                    push_str(&mut m, func.as_str());
                    push_str(&mut m, "` expects ");
                    push_decimal(&mut m, idx.len());
                    push_str(&mut m, " argument(s), got ");
                    push_decimal(&mut m, extra);
                    return Err(m);
                }
                let mut k: usize = 0;
                while k < idx.len()
                    invariant
                        self.wf(),
                        TypeChecker::tables_kept(*self, *old(self)),
                        TypeChecker::balanced(*self, *old(self)),
                        k <= idx@.len(),
                        idx@.len() + 1 == args@.len(),
                        forall|j: int| 0 <= j < idx@.len() ==> #[trigger] idx@[j] < params@.len(),
                    decreases idx.len() - k,
                {
                    proof {
                        broadcast use vstd::std_specs::vec::axiom_vec_index_decreases;
                        assert(decreases_to!(*args => args[k + 1]));
                    }
                    let arg_ty = self.check_call_arg(&args[k + 1])?;
                    let p = &params[idx[k]];
                    if !self.unify_type(&arg_ty, &p.ty, &mut bindings) {
                        let pt = type_debug(&p.ty);
                        let at = type_debug(&arg_ty);
                        return Err(cat(&vec!["type mismatch in call to `", func.as_str(), "`: parameter `",
                            p.name.as_str(), "` expected ", pt.as_str(), ", got ", at.as_str()]));
                    }
                    k += 1;
                }
                return Ok(match &method_info.fn_def.return_type {
                    Some(ret) => self.substitute_type(ret, &bindings),
                    None => Type::Unit,
                });
            }
        }
        let mut k: usize = 1;
        while k < args.len()
            invariant
                self.wf(),
                TypeChecker::tables_kept(*self, *old(self)),
                TypeChecker::balanced(*self, *old(self)),
                1 <= k <= args@.len(),
            decreases args.len() - k,
        {
            proof {
                broadcast use vstd::std_specs::vec::axiom_vec_index_decreases;
                assert(decreases_to!(*args => args[k as int]));
            }
            self.check_call_arg(&args[k])?;
            k += 1;
        }
        Ok(Type::I32)
    }

    /// A field of a struct value: through privacy tags; for a generic struct the field type
    /// gets the type arguments; `Self` stands for the current struct.
    #[verifier::loop_isolation(false)]
    fn check_field_access(&mut self, expr: &Expr) -> (r: Result<Type, String>)
        requires
            old(self).wf(),
        ensures
            TypeChecker::tables_kept(*final(self), *old(self)),
            r is Ok ==> TypeChecker::balanced(*final(self), *old(self)),
            expr.kind matches ExprKind::FieldAccess { field_name, .. } ==> (r is Ok
                ==> some_field_named(old(self).struct_defs(), field_name@)),
            expr.kind matches ExprKind::FieldAccess { struct_expr, field_name } ==> ((struct_expr.kind matches ExprKind::Ident(s)
                && s@ == "self"@ && (old(self).self_type() matches Some(Type::Struct(n))
                && (struct_index(old(self).struct_defs(), n@) matches Some(i)
                && (field_index(old(self).struct_defs()[i].fields@, field_name@) matches Some(f)))))
                ==> (r matches Ok(t) && type_same(t, stripped(old(self).struct_defs()[struct_index(old(self).struct_defs(),
                    old(self).self_type()->0->Struct_0@)->0].fields@[field_index(old(self).struct_defs()[struct_index(
                    old(self).struct_defs(), old(self).self_type()->0->Struct_0@)->0].fields@, field_name@)->0].ty)))),
        decreases expr, 9int,
    {
        let (struct_expr, field_name) = match &expr.kind {
            ExprKind::FieldAccess { struct_expr, field_name } => (struct_expr, field_name),
            _ => return Err("expected a field access".to_string()),
        };
        let struct_ty = self.check_expr(struct_expr)?;
        let stripped_ty = self.strip_privacy(&struct_ty);
        match stripped_ty {
            Type::Struct(name) => self.field_of_struct(&name, field_name, None),
            Type::Generic(name, type_args) => {
                let si = match self.find_struct(name.as_str()) {
                    Some(i) => i,
                    None => return Err(cat(&vec!["undefined struct: ", name.as_str()])),
                };
                let names = Self::generic_param_names(&self.structs[si].generic_params);
                let mut bindings: Vec<(String, Type)> = Vec::new();
                let mut k: usize = 0;
                while k < names.len() && k < type_args.len()
                    invariant
                        k <= names@.len(),
                    decreases names.len() - k,
                {
                    bind(&mut bindings, names[k].clone(), copy_type(&type_args[k]));
                    k += 1;
                }
                self.field_of_struct(&name, field_name, Some(&bindings))
            },
            Type::SelfType => {
                if let Some(Type::Struct(name)) = &self.current_self_type {
                    let n = name.clone();
                    return self.field_of_struct(&n, field_name, None);
                }
                Err("field access on SelfType with no current self type".to_string())
            },
            other => {
                let t = type_debug(&other);
                Err(cat(&vec!["field access on non-struct type: ", t.as_str()]))
            },
        }
    }

    /// The type of field `field_name` of struct `name` without privacy tags, with the type
    /// arguments substituted where there are bindings.
    fn field_of_struct(&self, name: &String, field_name: &String, bindings: Option<&Vec<(String, Type)>>)
        -> (r: Result<Type, String>)
        ensures
            match struct_index(self.struct_defs(), name@) {
                Some(i) => match field_index(self.struct_defs()[i].fields@, field_name@) {
                    Some(f) => r matches Ok(t) && match bindings {
                        None => type_same(t, stripped(self.struct_defs()[i].fields@[f].ty)),
                        Some(b) => exists|x: Type| #[trigger] substituted(x, self.struct_defs()[i].fields@[f].ty, b@)
                            && type_same(t, stripped(x)),
                    },
                    None => r is Err,
                },
                None => r is Err,
            },
            r is Ok ==> some_field_named(self.struct_defs(), field_name@),
    {
        let si = match self.find_struct(name.as_str()) {
            Some(i) => i,
            None => return Err(cat(&vec!["undefined struct: ", name.as_str()])),
        };
        let fields = &self.structs[si].fields;
        let mut k: usize = 0;
        while k < fields.len()
            invariant
                k <= fields@.len(),
                si < self.struct_defs().len(),
                struct_index(self.struct_defs(), name@) == Some(si as int),
                fields@ == self.struct_defs()[si as int].fields@,
                field_index(fields@.take(k as int), field_name@) is None,
            decreases fields.len() - k,
        {
            assert(fields@.take(k as int + 1).drop_last() == fields@.take(k as int));
            if str_eq(fields[k].name.as_str(), field_name.as_str()) {
                proof {
                    lemma_field_index_prefix(fields@, k as int + 1, field_name@);
                    assert(field_index(self.struct_defs()[si as int].fields@, field_name@) is Some);
                }
                match bindings {
                    Some(b) => {
                        let t = self.substitute_type(&fields[k].ty, b);
                        assert(substituted(t, self.struct_defs()[si as int].fields@[k as int].ty, b@));
                        return Ok(self.strip_privacy(&t));
                    },
                    None => return Ok(self.strip_privacy(&fields[k].ty)),
                }
            }
            k += 1;
        }
        assert(fields@.take(fields@.len() as int) == fields@);
        Err(cat(&vec!["field '", field_name.as_str(), "' not found in struct ", name.as_str()]))
    }
}

} // verus!

verus! {

impl TypeChecker {
    /// A closure given to a tensor operator: its parameter gets `param_ty` in a fresh scope
    /// stack (nothing else is visible in the body), and its result must be `expected_ret`
    /// where that is given.
    fn check_closure(&mut self, closure_expr: &Expr, param_ty: &Type, expected_ret: Option<&Type>) -> (r: Result<Type, String>)
        requires
            old(self).wf(),
        ensures
            TypeChecker::tables_kept(*final(self), *old(self)),
            r is Ok ==> TypeChecker::balanced(*final(self), *old(self)),
            !(closure_expr.kind is Closure) ==> r is Err,
            closure_expr.kind matches ExprKind::Closure { body, .. } ==> (expected_ret is None
                ==> (body.kind matches ExprKind::Literal(l) ==> r == Ok::<Type, String>(literal_type(l)))),
            closure_expr.kind matches ExprKind::Closure { body, .. } ==> (body.kind matches ExprKind::Literal(l)
                ==> (expected_ret matches Some(x) ==> (r is Ok <==> types_eq_privacy(literal_type(l), *x))
                    && (r is Ok ==> r == Ok::<Type, String>(literal_type(l))))),
        decreases closure_expr, 8int,
    {
        let (param_name, body) = match &closure_expr.kind {
            ExprKind::Closure { param, body } => (param, body),
            _ => return Err("Expected a closure".to_string()),
        };
        let mut old_scopes: Vec<Vec<(String, Type)>> = Vec::new();
        std::mem::swap(&mut old_scopes, &mut self.scopes);
        let mut scope: Vec<(String, Type)> = Vec::new();
        scope.push((param_name.clone(), copy_type(param_ty)));
        self.scopes.push(scope);
        let ret_ty = self.check_expr(body);
        self.scopes = old_scopes;
        let ret_ty = ret_ty?;
        if let Some(expected) = expected_ret {
            if !self.types_equal_with_privacy(&ret_ty, expected) {
                let a = type_debug(&ret_ty);
                let b = type_debug(expected);
                return Err(cat(&vec!["Closure return type ", a.as_str(), " does not match expected ", b.as_str()]));
            }
        }
        Ok(ret_ty)
    }

    /// The type of a call argument's expression.
    fn check_call_arg(&mut self, arg: &CallArg) -> (r: Result<Type, String>)
        requires
            old(self).wf(),
        ensures
            TypeChecker::tables_kept(*final(self), *old(self)),
            r is Ok ==> TypeChecker::balanced(*final(self), *old(self)),
            arg_result(*old(self), *arg, r),
        decreases arg, 8int,
    {
        match arg {
            CallArg::Positional(e) => self.check_expr(e),
            CallArg::Named(_, e) => self.check_expr(e),
        }
    }

    /// The type of a call argument's expression.
    fn get_arg_type(&mut self, arg: &CallArg) -> (r: Result<Type, String>)
        requires
            old(self).wf(),
        ensures
            TypeChecker::tables_kept(*final(self), *old(self)),
            r is Ok ==> TypeChecker::balanced(*final(self), *old(self)),
            arg_result(*old(self), *arg, r),
        decreases arg, 8int,
    {
        match arg {
            CallArg::Positional(e) => self.check_expr(e),
            CallArg::Named(_, e) => self.check_expr(e),
        }
    }

    /// In a model, a call whose first argument is another model, or a model held in a field
    /// `self.f`, has that model's `forward` result type, labeled with the join of the labels
    /// of the argument and of that result. `None` where the call is not such a call.
    #[verifier::loop_isolation(false)]
    pub fn try_cross_model_call(&mut self, func: &str, args: &Vec<CallArg>) -> (r: Result<Option<Type>, String>)
        requires
            old(self).wf(),
        ensures
            TypeChecker::tables_kept(*final(self), *old(self)),
            r is Ok ==> TypeChecker::balanced(*final(self), *old(self)),
            !old(self).checking_model() || args@.len() == 0 ==> r == Ok::<Option<Type>, String>(None)
                && *final(self) == *old(self),
            r matches Ok(Some(t)) ==> exists|n: Seq<char>| #[trigger] model_result(old(self).model_returns(), n, t),
            old(self).checking_model() && args@.len() > 0 && (call_arg_expr(args@[0]).kind matches ExprKind::Ident(n)
                && !(n@ == "self"@ && old(self).self_type() is Some)
                && (old(self).var_type(n@) matches Some(t) && (stripped(t) matches Type::Struct(m)
                    && old(self).is_model(m@) && pair_index(old(self).model_returns(), m@) is Some)))
                ==> r matches Ok(Some(_)),
            old(self).checking_model() && args@.len() > 0 ==> (call_arg_expr(args@[0]).kind matches ExprKind::Ident(n)
                ==> (!(n@ == "self"@ && old(self).self_type() is Some) ==> (old(self).var_type(n@) matches Some(t)
                    ==> (stripped(t) matches Type::Struct(m) ==> (old(self).is_model(m@)
                        && pair_index(old(self).model_returns(), m@) is Some
                        ==> (r matches Ok(Some(u)) && model_result(old(self).model_returns(), m@, u))))))),
        decreases args, 7int,
    {
        if !self.in_model {
            return Ok(None);
        }
        if args.len() == 0 {
            return Ok(None);
        }
        proof {
            broadcast use vstd::std_specs::vec::axiom_vec_index_decreases;
            assert(decreases_to!(*args => args[0]));
        }
        let receiver_ty = self.get_arg_type(&args[0])?;
        proof {
            if let ExprKind::Ident(n) = call_arg_expr(args@[0]).kind {
                if let Some(t) = old(self).var_type(n@) {
                    if !(n@ == "self"@ && old(self).self_type() is Some) {
                        lemma_stripped_same(receiver_ty, t);
                    }
                }
            }
        }
        if let Some(ret_ty) = self.model_return_type(&receiver_ty) {
            let t = self.join_call_result(&receiver_ty, ret_ty);
            proof {
                let n = choose|n: Seq<char>| #[trigger] pair_index(self.model_returns(), n) matches Some(i)
                    && type_same(ret_ty, self.model_returns()[i].1);
                assert(model_result(old(self).model_returns(), n, t));
                if let Type::Struct(m) = stripped(receiver_ty) {
                    assert(model_result(old(self).model_returns(), m@, t));
                }
            }
            return Ok(Some(t));
        }
        if let Some(field_name) = Self::self_field_name(&args[0]) {
            if let Some(field_ty) = self.current_self_field_type(&field_name) {
                if let Some(ret_ty) = self.model_return_type(&field_ty) {
                    let t = self.join_call_result(&receiver_ty, ret_ty);
                    proof {
                        let n = choose|n: Seq<char>| #[trigger] pair_index(self.model_returns(), n) matches Some(i)
                            && type_same(ret_ty, self.model_returns()[i].1);
                        assert(model_result(old(self).model_returns(), n, t));
                    }
                    return Ok(Some(t));
                }
            }
        }
        Ok(None)
    }

    /// Where `ty`, its privacy label aside, is a model, the return type of its `forward`.
    fn model_return_type(&self, ty: &Type) -> (r: Option<Type>)
        ensures
            stripped(*ty) matches Type::Struct(n) && self.is_model(n@) && pair_index(self.model_returns(), n@) is Some
                ==> r is Some,
            r matches Some(t) ==> exists|n: Seq<char>| #[trigger] pair_index(self.model_returns(), n) matches Some(i)
                && type_same(t, self.model_returns()[i].1),
            r is Some ==> (stripped(*ty) matches Type::Struct(n) && self.is_model(n@)
                && (pair_index(self.model_returns(), n@) matches Some(i) && (r matches Some(t)
                    && type_same(t, self.model_returns()[i].1)))),
    {
        let stripped = self.strip_privacy(ty);
        if let Type::Struct(name) = &stripped {
            if self.is_model_name(name.as_str()) {
                let r = self.model_return_type_of(name);
                proof {
                    if r is Some {
                        assert(pair_index(self.model_returns(), name@) is Some);
                    }
                }
                return r;
            }
        }
        None
    }

    /// The return type `ret_ty` carrying the join of the privacy labels of the receiver and
    /// of `ret_ty`.
    fn join_call_result(&self, receiver_ty: &Type, ret_ty: Type) -> (r: Type)
        ensures
            r == ret_ty || (r matches Type::Privacy(inner, _) && *inner == ret_ty),
            privacy_of(*receiver_ty) is None && privacy_of(ret_ty) is None ==> r == ret_ty,
            privacy_of(*receiver_ty) is Some || privacy_of(ret_ty) is Some ==> (r matches Type::Privacy(inner, u)
                && *inner == ret_ty && joined_label(*receiver_ty, ret_ty, Some(u))),
    {
        let joined = self.join_privacy_labels(receiver_ty, &ret_ty);
        self.apply_privacy_tag(ret_ty, joined)
    }

    /// The field name where the argument is written `self.name`.
    fn self_field_name(arg: &CallArg) -> (r: Option<String>)
        ensures
            match self_field_of(*arg) {
                Some(n) => r matches Some(f) && f@ == n,
                None => r is None,
            },
    {
        let e = match arg {
            CallArg::Positional(e) => e,
            CallArg::Named(..) => return None,
        };
        if let ExprKind::FieldAccess { struct_expr, field_name } = &e.kind {
            if let ExprKind::Ident(s) = &struct_expr.kind {
                if str_eq(s.as_str(), "self") {
                    return Some(field_name.clone());
                }
            }
        }
        None
    }

    /// The type of the first field named `field_name` of the struct that `self` is.
    fn current_self_field_type(&self, field_name: &String) -> (r: Option<Type>)
        ensures
            match self.current_self_type {
                Some(Type::Struct(n)) => match struct_index(self.struct_defs(), n@) {
                    Some(i) => match field_index(self.struct_defs()[i].fields@, field_name@) {
                        Some(f) => r matches Some(t) && type_same(t, self.struct_defs()[i].fields@[f].ty),
                        None => r is None,
                    },
                    None => r is None,
                },
                _ => r is None,
            },
    {
        if let Some(Type::Struct(struct_name)) = &self.current_self_type {
            if let Some(si) = self.find_struct(struct_name.as_str()) {
                let fields = &self.structs[si].fields;
                let mut k: usize = 0;
                while k < fields.len()
                    invariant
                        k <= fields@.len(),
                        si < self.struct_defs().len(),
                        self.current_self_type matches Some(Type::Struct(n)) && n@ == struct_name@,
                        struct_index(self.struct_defs(), struct_name@) == Some(si as int),
                        fields@ == self.struct_defs()[si as int].fields@,
                        field_index(fields@.take(k as int), field_name@) is None,
                    decreases fields.len() - k,
                {
                    assert(fields@.take(k as int + 1).drop_last() == fields@.take(k as int));
                    if str_eq(fields[k].name.as_str(), field_name.as_str()) {
                        proof {
                            lemma_field_index_prefix(fields@, k as int + 1, field_name@);
                        }
                        return Some(copy_type(&fields[k].ty));
                    }
                    k += 1;
                }
                assert(fields@.take(fields@.len() as int) == fields@);
            }
        }
        None
    }

    /// `Enum::Variant(args)`: where `enum_name` is no enum but names an implement block with
    /// a function `variant_name`, a qualified static call; otherwise the variant's payload
    /// (one argument, or none) is matched against the argument, binding the enum's type
    /// parameters (seeded from an expected `Enum<...>`); a generic enum gives `Enum<bound
    /// arguments>`, unbound parameters left as they are.
    #[verifier::loop_isolation(false)]
    fn check_enum_variant_construction(&mut self, enum_name: &str, variant_name: &str, args: &Vec<CallArg>,
        expected: Option<&Type>) -> (r: Result<Type, String>)
        requires
            old(self).wf(),
        ensures
            TypeChecker::tables_kept(*final(self), *old(self)),
            r is Ok ==> TypeChecker::balanced(*final(self), *old(self)),
            enum_index(old(self).enum_defs(), enum_name@) matches Some(i) ==> (r matches Ok(t) ==>
                if old(self).enum_defs()[i].generic_params@.len() == 0 {
                    t matches Type::Enum(n) && n@ == enum_name@
                } else {
                    t matches Type::Generic(n, a) && n@ == enum_name@ && a@.len() == old(self).enum_defs()[i].generic_params@.len()
                        && (expected is None ==> (variant_index(old(self).enum_defs()[i].variants@, variant_name@) matches Some(v)
                            ==> (old(self).enum_defs()[i].variants@[v].ty is None
                            ==> forall|k: int| 0 <= k < a@.len() ==> (#[trigger] a@[k] matches Type::TypeParam(m)
                                && m@ == param_names_of(old(self).enum_defs()[i].generic_params@)[k]))))
                }),
            enum_index(old(self).enum_defs(), enum_name@) matches Some(i) ==> match variant_index(old(self).enum_defs()[i].variants@, variant_name@) {
                None => r matches Err(m) && m@ == "enum "@ + enum_name@ + " has no variant "@ + variant_name@,
                Some(v) => {
                    &&& (args@.len() == 0 && old(self).enum_defs()[i].variants@[v].ty is None
                        && old(self).enum_defs()[i].generic_params@.len() == 0
                        ==> (r matches Ok(Type::Enum(n)) && n@ == enum_name@))
                    &&& (old(self).enum_defs()[i].variants@[v].ty is Some && args@.len() != 1
                        ==> (r matches Err(m) && m@ == "variant expects 1 argument"@))
                    &&& (old(self).enum_defs()[i].variants@[v].ty is None && args@.len() > 0
                        ==> (r matches Err(m) && m@ == "variant takes no arguments"@))
                },
            },
        decreases args, 7int,
    {
        let ei = match self.find_enum(enum_name) {
            Some(i) => i,
            None => {
                if self.has_qualified_static(enum_name, variant_name) {
                    return self.check_qualified_static_call(enum_name, variant_name, args, expected);
                }
                return Err(cat(&vec!["undefined enum: ", enum_name]));
            },
        };
        let enum_def = copy_enum_def(&self.enums[ei]);
        proof {
            lemma_variant_index_same_names(enum_def.variants@, self.enum_defs()[ei as int].variants@, variant_name@);
        }
        let vi = match find_variant_in(&enum_def.variants, variant_name) {
            Some(i) => i,
            None => {
                let mut m = String::new();
                push_str(&mut m, "enum ");
                push_str(&mut m, enum_name);
                push_str(&mut m, " has no variant ");
                push_str(&mut m, variant_name);
                return Err(m);
            },
        };
        proof {
            assert(opt_type_same(enum_def.variants@[vi as int].ty, self.enum_defs()[ei as int].variants@[vi as int].ty));
        }
        let mut bindings: Vec<(String, Type)> = Vec::new();
        if let Some(Type::Generic(exp_name, exp_args)) = expected {
            if str_eq(exp_name.as_str(), enum_name) && exp_args.len() == enum_def.generic_params.len() {
                let names = Self::generic_param_names(&enum_def.generic_params);
                let mut k: usize = 0;
                while k < names.len() && k < exp_args.len()
                    invariant
                        k <= names@.len(),
                    decreases names.len() - k,
                {
                    bind(&mut bindings, names[k].clone(), copy_type(&exp_args[k]));
                    k += 1;
                }
            }
        }
        if let Some(expected_ty) = &enum_def.variants[vi].ty {
            if args.len() != 1 {
                return Err("variant expects 1 argument".to_string());
            }
            proof {
                broadcast use vstd::std_specs::vec::axiom_vec_index_decreases;
                assert(decreases_to!(*args => args[0]));
            }
            let arg_is_int_literal = match &args[0] {
                CallArg::Positional(e) => match &e.kind { ExprKind::Literal(Literal::Int(_)) => true, _ => false },
                CallArg::Named(_, e) => match &e.kind { ExprKind::Literal(Literal::Int(_)) => true, _ => false },
            };
            let arg_ty = self.check_call_arg(&args[0])?;
            let resolved_expected = self.substitute_type(expected_ty, &bindings);
            let resolved_stripped = self.strip_privacy(&resolved_expected);
            let effective_arg_ty = if arg_is_int_literal && self.is_numeric_type(&resolved_stripped) {
                resolved_expected
            } else {
                copy_type(&arg_ty)
            };
            if !self.unify_type(&effective_arg_ty, expected_ty, &mut bindings) {
                let e = type_debug(expected_ty);
                let a = type_debug(&arg_ty);
                return Err(cat(&vec!["type mismatch: expected ", e.as_str(), ", got ", a.as_str()]));
            }
        } else if args.len() > 0 {
            return Err("variant takes no arguments".to_string());
        }
        if enum_def.generic_params.len() == 0 {
            Ok(Type::Enum(enum_name.to_string()))
        } else {
            let names = Self::generic_param_names(&enum_def.generic_params);
            proof {
                let gp0 = self.enum_defs()[ei as int].generic_params@;
                assert(param_names_of(enum_def.generic_params@) =~= param_names_of(gp0)) by {
                    assert forall|k: int| 0 <= k < gp0.len() implies
                        #[trigger] param_names_of(enum_def.generic_params@)[k] == param_names_of(gp0)[k] by {
                        assert(crate::ast::generic_param_same(enum_def.generic_params@[k], gp0[k]));
                    }
                }
                assert(names@.len() == string_views(names@).len());
            }
            let args_out = type_args_from(&names, &bindings);
            proof {
                if expected is None && enum_def.variants@[vi as int].ty is None {
                    assert(bindings@.len() == 0);
                    assert forall|k: int| 0 <= k < args_out@.len() implies (#[trigger] args_out@[k] matches Type::TypeParam(m)
                        && m@ == param_names_of(self.enum_defs()[ei as int].generic_params@)[k]) by {
                        assert(string_views(names@)[k] == names@[k]@);
                    }
                }
            }
            Ok(Type::Generic(enum_name.to_string(), args_out))
        }
    }

    /// `Type::func(args)` for a function filed from an implement block: the result type is
    /// first matched against an expected type (a mismatch there is not an error), then each
    /// non-`self` parameter against its argument; the result is the declared return type with
    /// the bindings substituted (`()` where none is declared).
    #[verifier::loop_isolation(false)]
    fn check_qualified_static_call(&mut self, owner_name: &str, func_name: &str, args: &Vec<CallArg>,
        expected: Option<&Type>) -> (r: Result<Type, String>)
        requires
            old(self).wf(),
        ensures
            TypeChecker::tables_kept(*final(self), *old(self)),
            r is Ok ==> TypeChecker::balanced(*final(self), *old(self)),
            old(self).method_entry(owner_name@, func_name@) is None ==> r is Err,
            old(self).method_entry(owner_name@, func_name@) matches Some(e) ==> (non_self_indices(e.fn_def.params@).len() != args@.len() ==> r is Err)
                && (r matches Ok(t) ==> (e.fn_def.return_type is None ==> t == Type::Unit))
                && (non_self_indices(e.fn_def.params@).len() == 0 && args@.len() == 0 && e.fn_def.return_type is None
                    ==> r == Ok::<Type, String>(Type::Unit)),
        decreases args, 6int,
    {
        let method_info = match self.method_info(owner_name, func_name) {
            Some(m) => m,
            None => return Err(cat(&vec!["undefined function `", owner_name, "::", func_name, "`"])),
        };
        let mut bindings: Vec<(String, Type)> = Vec::new();
        if let (Some(expected_ty), Some(ret_ty)) = (expected, &method_info.fn_def.return_type) {
            let _ = self.unify_type(expected_ty, ret_ty, &mut bindings);
        }
        let params = &method_info.fn_def.params;
        let idx = non_self_params(params);
        proof {
            let e = old(self).method_entry(owner_name@, func_name@)->0;
            lemma_non_self_same_names(params@, e.fn_def.params@);
        }
        if idx.len() != args.len() {
            let mut m = String::new();
            push_str(&mut m, "`");
            push_str(&mut m, owner_name);
            push_str(&mut m, "::");
            push_str(&mut m, func_name);
            push_str(&mut m, "` expects ");
            push_decimal(&mut m, idx.len());
            push_str(&mut m, " argument(s), got ");
            push_decimal(&mut m, args.len());
            return Err(m);
        }
        let mut k: usize = 0;
        while k < idx.len()
            invariant
                self.wf(),
                TypeChecker::tables_kept(*self, *old(self)),
                TypeChecker::balanced(*self, *old(self)),
                k <= idx@.len(),
                idx@.len() == args@.len(),
                forall|j: int| 0 <= j < idx@.len() ==> #[trigger] idx@[j] < params@.len(),
            decreases idx.len() - k,
        {
            proof {
                broadcast use vstd::std_specs::vec::axiom_vec_index_decreases;
                assert(decreases_to!(*args => args[k as int]));
            }
            let arg_ty = self.check_call_arg(&args[k])?;
            let p = &params[idx[k]];
            if !self.unify_type(&arg_ty, &p.ty, &mut bindings) {
                let pt = type_debug(&p.ty);
                let at = type_debug(&arg_ty);
                return Err(cat(&vec!["type mismatch in call to `", owner_name, "::", func_name, "`: parameter `",
                    p.name.as_str(), "` expected ", pt.as_str(), ", got ", at.as_str()]));
            }
            k += 1;
        }
        Ok(match &method_info.fn_def.return_type {
            Some(ret) => self.substitute_type(ret, &bindings),
            None => Type::Unit,
        })
    }

    /// `Struct { f: e, ... }`: exactly as many fields as declared, each known and matched
    /// against its declared type (an integer literal takes a numeric field's type), binding
    /// the struct's type parameters (seeded from an expected `Struct<...>`); a generic struct
    /// gives `Struct<bound arguments>`.
    #[verifier::loop_isolation(false)]
    fn check_struct_init(&mut self, struct_name: &str, fields: &Vec<(String, Expr)>, expected: Option<&Type>)
        -> (r: Result<Type, String>)
        requires
            old(self).wf(),
        ensures
            TypeChecker::tables_kept(*final(self), *old(self)),
            r is Ok ==> TypeChecker::balanced(*final(self), *old(self)),
            r is Ok ==> struct_index(old(self).struct_defs(), struct_name@) is Some,
            struct_index(old(self).struct_defs(), struct_name@) matches Some(i) ==>
                (fields@.len() != old(self).struct_defs()[i].fields@.len() ==> r is Err)
                && (fields@.len() == 0 && old(self).struct_defs()[i].fields@.len() == 0
                    && old(self).struct_defs()[i].generic_params@.len() == 0
                    ==> (r matches Ok(Type::Struct(n)) && n@ == struct_name@)),
            r matches Ok(t) ==> (t matches Type::Struct(n) && n@ == struct_name@) || (t matches Type::Generic(n, _) && n@ == struct_name@),
        decreases fields, 7int,
    {
        let si = match self.find_struct(struct_name) {
            Some(i) => i,
            None => return Err(cat(&vec!["undefined struct: ", struct_name])),
        };
        let struct_def = copy_struct_def(&self.structs[si]);
        if fields.len() != struct_def.fields.len() {
            let mut m = String::new();
            push_str(&mut m, "struct ");
            push_str(&mut m, struct_name);
            push_str(&mut m, " expects ");
            push_decimal(&mut m, struct_def.fields.len());
            push_str(&mut m, " fields, got ");
            push_decimal(&mut m, fields.len());
            return Err(m);
        }
        let mut bindings: Vec<(String, Type)> = Vec::new();
        if let Some(Type::Generic(exp_name, exp_args)) = expected {
            if str_eq(exp_name.as_str(), struct_name) && exp_args.len() == struct_def.generic_params.len() {
                let names = Self::generic_param_names(&struct_def.generic_params);
                let mut k: usize = 0;
                while k < names.len() && k < exp_args.len()
                    invariant
                        k <= names@.len(),
                    decreases names.len() - k,
                {
                    bind(&mut bindings, names[k].clone(), copy_type(&exp_args[k]));
                    k += 1;
                }
            }
        }
        let mut k: usize = 0;
        while k < fields.len()
            invariant
                self.wf(),
                TypeChecker::tables_kept(*self, *old(self)),
                TypeChecker::balanced(*self, *old(self)),
                k <= fields@.len(),
            decreases fields.len() - k,
        {
            proof {
                broadcast use vstd::std_specs::vec::axiom_vec_index_decreases;
                assert(decreases_to!(*fields => fields[k as int]));
            }
            let (field_name, field_expr) = &fields[k];
            let expected_ty = match last_field_type(&struct_def.fields, field_name) {
                Some(t) => t,
                None => return Err(cat(&vec!["unknown field '", field_name.as_str(), "' in struct ", struct_name])),
            };
            let actual_ty = self.check_expr_with_expected(field_expr, Some(&expected_ty))?;
            let expected_stripped = self.strip_privacy(&expected_ty);
            let is_lit = match &field_expr.kind {
                ExprKind::Literal(Literal::Int(_)) => true,
                _ => false,
            };
            let effective_ty = if is_lit && self.is_numeric_type(&expected_stripped) {
                copy_type(&expected_ty)
            } else {
                copy_type(&actual_ty)
            };
            if !self.unify_type(&effective_ty, &expected_ty, &mut bindings) {
                let e = type_debug(&expected_ty);
                let a = type_debug(&actual_ty);
                return Err(cat(&vec!["field '", field_name.as_str(), "' type mismatch: expected ", e.as_str(), ", got ", a.as_str()]));
            }
            k += 1;
        }
        if struct_def.generic_params.len() == 0 {
            Ok(Type::Struct(struct_name.to_string()))
        } else {
            let names = Self::generic_param_names(&struct_def.generic_params);
            Ok(Type::Generic(struct_name.to_string(), type_args_from(&names, &bindings)))
        }
    }
}

/// The declared type of the last field named `name` (a later declaration of a name hides an
/// earlier one).
fn last_field_type(fields: &Vec<StructField>, name: &String) -> (r: Option<Type>)
    ensures
        match last_field_index(fields@, name@) {
            Some(i) => r matches Some(t) && type_same(t, fields@[i].ty),
            None => r is None,
        },
{
    let mut k = fields.len();
    assert(fields@.take(k as int) == fields@);
    while k > 0
        invariant
            k <= fields@.len(),
            last_field_index(fields@.take(k as int), name@) == last_field_index(fields@, name@),
        decreases k,
    {
        assert(fields@.take(k as int).drop_last() == fields@.take(k - 1));
        assert(fields@.take(k as int).last() == fields@[k - 1]);
        k -= 1;
        if str_eq(fields[k].name.as_str(), name.as_str()) {
            return Some(copy_type(&fields[k].ty));
        }
    }
    None
}

/// Index of the last field named `name`.
pub open spec fn last_field_index(fields: Seq<StructField>, name: Seq<char>) -> Option<int>
    decreases fields.len(),
{
    if fields.len() == 0 {
        None
    } else if fields.last().name@ == name {
        Some(fields.len() - 1)
    } else {
        last_field_index(fields.drop_last(), name)
    }
}

/// For each name, a copy of its binding, or the type parameter itself where it is unbound.
fn type_args_from(names: &Vec<String>, bindings: &Vec<(String, Type)>) -> (r: Vec<Type>)
    ensures
        r@.len() == names@.len(),
        forall|k: int| 0 <= k < names@.len() ==> match pair_index(bindings@, names@[k]@) {
            Some(i) => type_same(#[trigger] r@[k], bindings@[i].1),
            None => r@[k] matches Type::TypeParam(m) && m@ == names@[k]@,
        },
{
    let mut out: Vec<Type> = Vec::new();
    let mut k: usize = 0;
    while k < names.len()
        invariant
            k <= names@.len(),
            out@.len() == k,
            forall|j: int| 0 <= j < k ==> match pair_index(bindings@, names@[j]@) {
                Some(i) => type_same(#[trigger] out@[j], bindings@[i].1),
                None => out@[j] matches Type::TypeParam(m) && m@ == names@[j]@,
            },
        decreases names.len() - k,
    {
        match find_pair(bindings, &names[k]) {
            Some(i) => out.push(copy_type(&bindings[i].1)),
            None => out.push(Type::TypeParam(names[k].clone())),
        }
        k += 1;
    }
    out
}

} // verus!

verus! {

/// The field name where a call argument is written `self.name`.
pub open spec fn self_field_of(a: CallArg) -> Option<Seq<char>> {
    match a {
        CallArg::Positional(e) => match e.kind {
            ExprKind::FieldAccess { struct_expr, field_name } => match struct_expr.kind {
                ExprKind::Ident(s) => if s@ == "self"@ { Some(field_name@) } else { None },
                _ => None,
            },
            _ => None,
        },
        CallArg::Named(..) => None,
    }
}

/// `t` is the return type of the `forward` of the model named `n`, possibly under a privacy
/// label.
pub open spec fn model_result(forwards: Seq<(String, Type)>, n: Seq<char>, t: Type) -> bool {
    match pair_index(forwards, n) {
        Some(i) => labeled_as(t, forwards[i].1),
        None => false,
    }
}

/// Index of the first field named `name`.
pub open spec fn field_index(fields: Seq<StructField>, name: Seq<char>) -> Option<int>
    decreases fields.len(),
{
    if fields.len() == 0 {
        None
    } else {
        match field_index(fields.drop_last(), name) {
            Some(i) => Some(i),
            None => if fields.last().name@ == name { Some(fields.len() - 1) } else { None },
        }
    }
}

proof fn lemma_field_index_prefix(v: Seq<StructField>, n: int, name: Seq<char>)
    requires
        0 < n <= v.len(),
        field_index(v.take(n - 1), name) is None,
        v[n - 1].name@ == name,
    ensures
        field_index(v, name) == Some(n - 1),
    decreases v.len(),
{
    assert(v.take(n).drop_last() == v.take(n - 1));
    if n < v.len() {
        assert(v.drop_last().take(n) == v.take(n));
        assert(v.drop_last().take(n - 1) == v.take(n - 1));
        lemma_field_index_prefix(v.drop_last(), n, name);
    } else {
        assert(v.take(n) == v);
        assert(v.drop_last() == v.take(n - 1));
    }
}

/// Some struct has a field named `name`.
pub open spec fn some_field_named(structs: Seq<StructDef>, name: Seq<char>) -> bool {
    exists|i: int| 0 <= i < structs.len() && #[trigger] field_index(structs[i].fields@, name) is Some
}

/// What checking a call argument gives where its expression is a literal or a name.
pub open spec fn arg_result(c: TypeChecker, a: CallArg, r: Result<Type, String>) -> bool {
    &&& call_arg_expr(a).kind matches ExprKind::Literal(l) ==> r == Ok::<Type, String>(literal_type(l))
    &&& call_arg_expr(a).kind matches ExprKind::Ident(n) ==> c.name_result(n@, r)
}

/// `mi` is a copy of the filed method `e`: name, parameters, return type and target type.
spec fn method_copied(mi: MethodInfo, e: MethodInfo) -> bool {
    &&& mi.fn_def.name@ == e.fn_def.name@
    &&& mi.fn_def.params@.len() == e.fn_def.params@.len()
    &&& forall|k: int| 0 <= k < e.fn_def.params@.len() ==> (#[trigger] mi.fn_def.params@[k]).name@ == e.fn_def.params@[k].name@
        && type_same(mi.fn_def.params@[k].ty, e.fn_def.params@[k].ty)
    &&& opt_type_same(mi.fn_def.return_type, e.fn_def.return_type)
    &&& type_same(mi.target_type, e.target_type)
}

/// Stripping the privacy labels of copies gives copies.
proof fn lemma_stripped_same(a: Type, b: Type)
    requires
        type_same(a, b),
    ensures
        type_same(stripped(a), stripped(b)),
    decreases a,
{
    match (a, b) {
        (Type::Privacy(x, _), Type::Privacy(y, _)) => lemma_stripped_same(*x, *y),
        (Type::Ref { inner: x, .. }, Type::Ref { inner: y, .. }) => lemma_stripped_same(*x, *y),
        _ => {},
    }
}

/// Variant lists with the same names find a name at the same place.
proof fn lemma_variant_index_same_names(a: Seq<EnumVariant>, b: Seq<EnumVariant>, name: Seq<char>)
    requires
        a.len() == b.len(),
        forall|k: int| 0 <= k < a.len() ==> (#[trigger] a[k]).name@ == b[k].name@,
    ensures
        variant_index(a, name) == variant_index(b, name),
    decreases a.len(),
{
    if a.len() > 0 {
        assert forall|k: int| 0 <= k < a.drop_last().len() implies (#[trigger] a.drop_last()[k]).name@ == b.drop_last()[k].name@ by {
            assert(a.drop_last()[k] == a[k] && b.drop_last()[k] == b[k]);
        }
        lemma_variant_index_same_names(a.drop_last(), b.drop_last(), name);
        assert(a.last().name@ == b[b.len() - 1].name@);
    }
}

/// A function with no parameters, no return type and an empty body.
pub open spec fn plain_fn(f: FnDef) -> bool {
    f.params@.len() == 0 && f.body.stmts@.len() == 0 && f.return_type is None
}

/// Every function of the list is plain and none is being checked already.
pub open spec fn plain_fns(fs: Seq<FnDef>, active: Seq<Seq<char>>) -> bool {
    forall|k: int| 0 <= k < fs.len() ==> plain_fn(#[trigger] fs[k]) && !active.contains(fs[k].name@)
}

/// No enum declares a variant named `name`.
pub open spec fn no_variant_named(enums: Seq<EnumDef>, name: Seq<char>) -> bool {
    forall|k: int| 0 <= k < enums.len() ==> variant_index(#[trigger] enums[k].variants@, name) is None
}

/// What a plain call (no qualifier, not a method) of a builtin that no enum variant shadows
/// gives: `print` is refused in a model and otherwise `i32`; `panic` takes one argument and
/// gives `()`; `from_utf8_unchecked` takes one argument and gives `&str`.
pub open spec fn builtin_result(e: Expr, enums: Seq<EnumDef>, in_model: bool, r: Result<Type, String>) -> bool {
    match e.kind {
        ExprKind::Call { qualifier: None, func, args, is_method: false } => no_variant_named(enums, func@) ==> {
            &&& func@ == "print"@ ==> (in_model ==> r is Err) && (r is Ok ==> r == Ok::<Type, String>(Type::I32))
                && (!in_model && args@.len() == 0 ==> r == Ok::<Type, String>(Type::I32))
            &&& func@ == "panic"@ ==> (args@.len() != 1 ==> r is Err) && (r is Ok ==> r == Ok::<Type, String>(Type::Unit))
            &&& func@ == "from_utf8_unchecked"@ ==> (args@.len() != 1 ==> r is Err)
                && (r is Ok ==> (r matches Ok(Type::Ref { mutable: false, inner }) && *inner == Type::Str))
        },
        _ => true,
    }
}

/// A match arm's pattern fits the enum `def`: it names `def` and one of its variants, and a
/// pattern with a binding names a variant that carries a value.
pub open spec fn pattern_fits(p: Pattern, def: EnumDef) -> bool {
    match p {
        Pattern::EnumVariant { enum_name, variant_name } => enum_name@ == def.name@
            && variant_index(def.variants@, variant_name@) is Some,
        Pattern::EnumVariantWithBinding { enum_name, variant_name, .. } => enum_name@ == def.name@
            && match variant_index(def.variants@, variant_name@) {
                Some(v) => def.variants@[v].ty is Some,
                None => false,
            },
        Pattern::Wildcard => true,
    }
}

/// Every arm's pattern fits the enum `def`.
pub open spec fn arms_fit(arms: Seq<MatchArm>, def: EnumDef) -> bool {
    forall|k: int| 0 <= k < arms.len() ==> pattern_fits(#[trigger] arms[k].pattern, def)
}

impl TypeChecker {
    /// `match c { ... }` on a value of an enum type: each pattern must name a variant of that
    /// enum; a binding gets the variant's payload type (a payload that is one of the enum's
    /// type parameters gets the matching type argument); the arms must agree in type, arms
    /// that are a bare `panic(...)` aside.
    #[verifier::loop_isolation(false)]
    pub fn check_match_expr(&mut self, match_expr: &MatchExpr) -> (r: Result<Type, String>)
        requires
            old(self).wf(),
        ensures
            TypeChecker::tables_kept(*final(self), *old(self)),
            r is Ok ==> TypeChecker::balanced(*final(self), *old(self)),
            r is Ok ==> exists|e: int| 0 <= e < old(self).enum_defs().len()
                && #[trigger] arms_fit(match_expr.arms@, old(self).enum_defs()[e]),
            match_expr.arms@.len() == 0 && (match_expr.cond.kind matches ExprKind::Ident(n)
                && !(n@ == "self"@ && old(self).self_type() is Some)
                && (old(self).var_type(n@) matches Some(Type::Enum(e)) && enum_index(old(self).enum_defs(), e@) is Some))
                ==> r == Ok::<Type, String>(Type::Unit),
            forall|args: Seq<Type>, j: int| #[trigger] generic_binding_match(*old(self), *match_expr, args, j)
                ==> (r matches Ok(t) && type_same(t, args[j])),
            old(self).atom_type(*match_expr.cond) matches Some(t) ==> (!(t is Enum) && !(t is Generic)
                ==> (r matches Err(m) && m@ == "match expression must be on an enum type"@)),
        decreases match_expr, 9int,
    {
        let cond_ty = self.check_expr(&match_expr.cond)?;
        proof {
            if let Some(t) = old(self).atom_type(*match_expr.cond) {
                if match_expr.cond.kind is Ident {
                    lemma_same_plain(cond_ty, t);
                }
            }
        }
        let (enum_name, generic_args): (String, Vec<Type>) = match &cond_ty {
            Type::Enum(name) => (name.clone(), Vec::new()),
            Type::Generic(name, args) => {
                let mut copy: Vec<Type> = Vec::new();
                let mut k: usize = 0;
                while k < args.len()
                    invariant
                        k <= args@.len(),
                        copy@.len() == k,
                        forall|i: int| 0 <= i < k ==> type_same(#[trigger] copy@[i], args@[i]),
                    decreases args.len() - k,
                {
                    copy.push(copy_type(&args[k]));
                    k += 1;
                }
                (name.clone(), copy)
            },
            _ => return Err("match expression must be on an enum type".to_string()),
        };
        let ei = match self.find_enum(enum_name.as_str()) {
            Some(i) => i,
            None => return Err(cat(&vec!["undefined enum: ", enum_name.as_str()])),
        };
        let param_names = Self::generic_param_names(&self.enums[ei].generic_params);
        proof {
            assert forall|args: Seq<Type>, jj: int| #[trigger] generic_binding_match(*old(self), *match_expr, args, jj)
                implies generic_args@.len() == args.len() && forall|i: int| 0 <= i < args.len()
                    ==> type_same(#[trigger] generic_args@[i], args[i]) by {
                if let Type::Generic(_, xs) = cond_ty {
                    assert forall|i: int| 0 <= i < args.len() implies type_same(#[trigger] generic_args@[i], args[i]) by {
                        crate::properties::lemma_type_same_transitive(generic_args@[i], xs@[i], args[i]);
                    }
                }
            }
        }
        let ghost mut bty: Type = Type::Unit;
        let mut arm_types: Vec<Type> = Vec::new();
        let mut arm_panics: Vec<bool> = Vec::new();
        let mut k: usize = 0;
        while k < match_expr.arms.len()
            invariant
                self.wf(),
                TypeChecker::tables_kept(*self, *old(self)),
                TypeChecker::balanced(*self, *old(self)),
                k <= match_expr.arms@.len(),
                arm_types@.len() == arm_panics@.len(),
                arm_types@.len() == k,
                ei < self.enum_defs().len(),
                self.enum_defs()[ei as int].name@ == enum_name@,
                forall|j: int| 0 <= j < k ==> pattern_fits(#[trigger] match_expr.arms@[j].pattern, self.enum_defs()[ei as int]),
                forall|args: Seq<Type>, jj: int| #[trigger] generic_binding_match(*old(self), *match_expr, args, jj)
                    ==> (k == 1 ==> !arm_panics@[0] && type_same(arm_types@[0], args[jj])),
            decreases match_expr.arms.len() - k,
        {
            proof {
                broadcast use vstd::std_specs::vec::axiom_vec_index_decreases;
                assert(decreases_to!(match_expr.arms => match_expr.arms[k as int]));
            }
            let arm = &match_expr.arms[k];
            self.push_scope(Vec::new());
            match &arm.pattern {
                Pattern::EnumVariant { enum_name: pat_enum, variant_name } => {
                    if !str_eq(pat_enum.as_str(), enum_name.as_str()) {
                        return Err("pattern enum name mismatch".to_string());
                    }
                    if !self.has_variant(enum_name.as_str(), variant_name.as_str()) {
                        return Err(cat(&vec!["enum ", enum_name.as_str(), " has no variant ", variant_name.as_str()]));
                    }
                },
                Pattern::EnumVariantWithBinding { enum_name: pat_enum, variant_name, binding } => {
                    if !str_eq(pat_enum.as_str(), enum_name.as_str()) {
                        return Err("pattern enum name mismatch".to_string());
                    }
                    let variant = match self.resolve_variant_in(enum_name.as_str(), variant_name.as_str()) {
                        Some(v) => v,
                        None => return Err(cat(&vec!["enum ", enum_name.as_str(), " has no variant ", variant_name.as_str()])),
                    };
                    let binding_ty = match &variant.ty {
                        Some(param_ty) => {
                            let named = match param_ty {
                                Type::Struct(name) => Some(name),
                                Type::Generic(name, _) => Some(name),
                                Type::TypeParam(name) => Some(name),
                                _ => None,
                            };
                            match named {
                                Some(name) => match find_string(&param_names, name.as_str()) {
                                    Some(idx) => {
                                        proof {
                                            assert forall|args: Seq<Type>, jj: int| #[trigger] generic_binding_match(*old(self), *match_expr, args, jj)
                                                implies jj == idx by {
                                                let ps = param_names_of(self.enum_defs()[ei as int].generic_params@);
                                                assert(string_views(param_names@) == ps);
                                                assert(ps[idx as int] == param_names@[idx as int]@);
                                                if jj < idx {
                                                    assert(param_names@[jj]@ == ps[jj]);
                                                } else if idx < jj {
                                                    assert(ps[idx as int] != name@);
                                                }
                                            }
                                        }
                                        if idx < generic_args.len() {
                                            copy_type(&generic_args[idx])
                                        } else {
                                            return Err(cat(&vec!["missing generic argument for `", name.as_str(), "`"]));
                                        }
                                    },
                                    None => copy_type(param_ty),
                                },
                                None => copy_type(param_ty),
                            }
                        },
                        None => return Err("variant has no parameter but pattern has binding".to_string()),
                    };
                    proof {
                        bty = binding_ty;
                    }
                    self.declare(binding.clone(), binding_ty);
                },
                Pattern::Wildcard => {},
            }
            assert(pattern_fits(arm.pattern, self.enum_defs()[ei as int]));
            let is_panic_arm = match &arm.expr.kind {
                ExprKind::Call { func, .. } => str_eq(func.as_str(), "panic"),
                _ => false,
            };
            let arm_ty = self.check_expr(&arm.expr)?;
            proof {
                assert forall|args: Seq<Type>, jj: int| #[trigger] generic_binding_match(*old(self), *match_expr, args, jj)
                    implies type_same(arm_ty, args[jj]) by {
                    crate::properties::lemma_type_same_transitive(arm_ty, bty, generic_args@[jj]);
                    crate::properties::lemma_type_same_transitive(arm_ty, generic_args@[jj], args[jj]);
                }
            }
            arm_types.push(arm_ty);
            arm_panics.push(is_panic_arm);
            self.pop_scope();
            k += 1;
        }
        assert(arms_fit(match_expr.arms@, old(self).enum_defs()[ei as int]));
        let mut first: Option<usize> = None;
        let mut real_count: usize = 0;
        let mut j: usize = 0;
        while j < arm_types.len()
            invariant
                j <= arm_types@.len(),
                arm_types@.len() == arm_panics@.len(),
                real_count <= j,
                first matches Some(f) ==> f < j,
                real_count == 0 <==> first is None,
                forall|args: Seq<Type>, jj: int| #[trigger] generic_binding_match(*old(self), *match_expr, args, jj)
                    ==> (j >= 1 ==> first == Some(0usize)) && arm_types@.len() == 1 && !arm_panics@[0],
            decreases arm_types.len() - j,
        {
            if !arm_panics[j] {
                match first {
                    None => {
                        first = Some(j);
                    },
                    Some(f) => {
                        if !self.types_equal(&arm_types[j], &arm_types[f]) {
                            let mut m = String::new();
                            push_str(&mut m, "match arm ");
                            push_decimal(&mut m, real_count + 1);
                            push_str(&mut m, " type mismatch");
                            return Err(m);
                        }
                    },
                }
                real_count += 1;
            }
            j += 1;
        }
        match first {
            Some(f) => {
                let t = copy_type(&arm_types[f]);
                proof {
                    assert forall|args: Seq<Type>, jj: int| #[trigger] generic_binding_match(*old(self), *match_expr, args, jj)
                        implies type_same(t, args[jj]) by {
                        crate::properties::lemma_type_same_transitive(t, arm_types@[0], args[jj]);
                    }
                }
                Ok(t)
            },
            None => {
                if arm_types.len() > 0 {
                    Ok(copy_type(&arm_types[0]))
                } else {
                    Ok(Type::Unit)
                }
            },
        }
    }

    /// Checks an expression with an expected type as a hint: enum and struct construction
    /// (also a bare variant of exactly one enum) bind type parameters from it, an integer
    /// literal (or its negation, for a signed type) takes a numeric expected type, and the
    /// hint reaches into blocks and both branches of an `if`; otherwise as [`Self::check_expr`].
    #[verifier::loop_isolation(false)]
    fn check_expr_with_expected(&mut self, expr: &Expr, expected: Option<&Type>) -> (r: Result<Type, String>)
        requires
            old(self).wf(),
        ensures
            TypeChecker::tables_kept(*final(self), *old(self)),
            r is Ok ==> TypeChecker::balanced(*final(self), *old(self)),
            expr.kind matches ExprKind::Literal(l) ==> if l is Int && (expected matches Some(t) && is_numeric(stripped(*t))) {
                (r matches Ok(u) && type_same(u, *expected->0))
            } else {
                r == Ok::<Type, String>(literal_type(l))
            },
            expr.kind matches ExprKind::Unary { op: UnaryOp::Neg, expr: inner } ==> ((inner.kind matches ExprKind::Literal(Literal::Int(_)))
                && (expected matches Some(t) && is_signed_numeric(stripped(*t))) ==> (r matches Ok(u) && type_same(u, *expected->0))),
            expr.kind matches ExprKind::Ident(n) ==> old(self).name_result(n@, r),
            expr.kind is Ident ==> *final(self) == *old(self),
            expected is None ==> (r matches Ok(t) ==> (records_type(expr.kind)
                ==> final(self).recorded_types().contains_key(expr.id) && type_same(final(self).recorded_types()[expr.id], t))),
            expr.kind matches ExprKind::Block(b) ==> (simple_block_type(b.stmts@) matches Some(t) ==> r == Ok::<Type, String>(t)),
            expr.kind matches ExprKind::Block(b) ==> (b.stmts@.len() > 0 && mismatched_let(b.stmts@[0])
                ==> (r matches Err(m) && m@ == let_mismatch_message(b.stmts@[0]))),
            expr.kind matches ExprKind::If { kind: IfKind::Normal, else_expr: None, .. } ==> r is Err,
            expr.kind matches ExprKind::If { kind: IfKind::Lack, else_expr: Some(_), .. } ==> r is Err,
            expr.kind matches ExprKind::Cast { expr: x, ty: c } ==> (x.kind matches ExprKind::Literal(l)
                ==> if is_numeric(literal_type(l)) && is_numeric(c) { r matches Ok(t) && type_same(t, c) } else { r is Err }),
            expr.kind matches ExprKind::Index { expr: b, index: i } ==> (b.kind matches ExprKind::Literal(Literal::String(_))
                ==> (i.kind matches ExprKind::Literal(li) ==> if is_integer(literal_type(li)) {
                    r == Ok::<Type, String>(Type::U8)
                } else {
                    r matches Err(m) && m@ == "index must be an integer type, got "@ + type_text(literal_type(li))
                })),
            expr.kind matches ExprKind::BinaryOp { op, left, right } ==> (left.kind matches ExprKind::Literal(l1)
                ==> (right.kind matches ExprKind::Literal(l2) ==> (r is Ok <==> binop_ok(op, literal_type(l1), literal_type(l2),
                    is_int_literal(*left), is_int_literal(*right))))),
            expr.kind matches ExprKind::BinaryOp { op, left, right } ==> (old(self).atom_type(*left) matches Some(lt)
                ==> (old(self).atom_type(*right) matches Some(rt)
                ==> (r is Ok <==> binop_ok(op, lt, rt, is_int_literal(*left), is_int_literal(*right))))),
        decreases expr, 11int,
    {
        let expected_ty = match expected {
            Some(t) => t,
            None => return self.check_expr(expr),
        };
        match &expr.kind {
            ExprKind::EnumVariantConstruction { enum_name, variant_name, args } =>
                self.check_enum_variant_construction(enum_name.as_str(), variant_name.as_str(), args, Some(expected_ty)),
            ExprKind::StructInit { struct_name, fields } =>
                self.check_struct_init(struct_name.as_str(), fields, Some(expected_ty)),
            ExprKind::Call { qualifier: None, func, args, is_method: false } => {
                match self.resolve_bare_variant(func.as_str()) {
                    BareVariantOutcome::Unique(e) =>
                        self.check_enum_variant_construction(e.as_str(), func.as_str(), args, Some(expected_ty)),
                    _ => self.check_expr(expr),
                }
            },
            ExprKind::Literal(Literal::Int(_)) => {
                let stripped = self.strip_privacy(expected_ty);
                proof {
                    lemma_kind_respects(stripped, crate::sema::stripped(*expected_ty));
                }
                if self.is_numeric_type(&stripped) {
                    Ok(copy_type(expected_ty))
                } else {
                    self.check_expr(expr)
                }
            },
            ExprKind::Unary { op: UnaryOp::Neg, expr: inner } => {
                let is_lit = match &inner.kind {
                    ExprKind::Literal(Literal::Int(_)) => true,
                    _ => false,
                };
                let stripped = self.strip_privacy(expected_ty);
                proof {
                    lemma_kind_respects(stripped, crate::sema::stripped(*expected_ty));
                }
                if is_lit && self.is_signed_numeric_type(&stripped) {
                    Ok(copy_type(expected_ty))
                } else {
                    self.check_expr(expr)
                }
            },
            ExprKind::Block(block) => self.check_block_with_expected(block, Some(expected_ty)),
            ExprKind::If { kind: if_kind, cond, then_expr, else_expr } => {
                let cond_ty = self.check_expr(cond)?;
                if !is_bool_type(&cond_ty) {
                    return Err("if condition must be bool".to_string());
                }
                let then_ty = self.check_expr_with_expected(then_expr, Some(expected_ty))?;
                match if_kind {
                    IfKind::Normal => {
                        let else_ty = match else_expr {
                            Some(e) => self.check_expr_with_expected(e, Some(expected_ty))?,
                            None => {
                                return Err("if expression requires an else branch（如果这个 if 不需要产出值、纯粹是副作用，请显式写成 `lack if`）".to_string());
                            },
                        };
                        if !self.types_equal_with_privacy(&then_ty, &else_ty) {
                            let a = type_debug(&then_ty);
                            let b = type_debug(&else_ty);
                            return Err(cat(&vec!["if branches have different types: then = ", a.as_str(), ", else = ", b.as_str()]));
                        }
                        let joined = self.join_privacy_labels(&then_ty, &else_ty);
                        let base = self.strip_privacy(&then_ty);
                        Ok(self.apply_privacy_tag(base, joined))
                    },
                    IfKind::Lack => {
                        if else_expr.is_some() {
                            return Err("`lack if` must not have an else branch（既然写了 else，就该用普通 if，不要用 lack if）".to_string());
                        }
                        let then_inner = self.strip_privacy(&then_ty);
                        if !is_unit_type(&then_inner) {
                            let t = type_debug(&then_ty);
                            return Err(cat(&vec!["`lack if` 的 then 分支必须是 Unit 类型（纯副作用、不产出值），得到 ", t.as_str()]));
                        }
                        Ok(Type::Unit)
                    },
                }
            },
            _ => self.check_expr(expr),
        }
    }

    /// The type of a block: that of its last statement (`i32` for an empty block).
    fn check_block(&mut self, block: &Block) -> (r: Result<Type, String>)
        requires
            old(self).wf(),
        ensures
            TypeChecker::tables_kept(*final(self), *old(self)),
            r is Ok ==> TypeChecker::balanced(*final(self), *old(self)),
            block.stmts@.len() == 0 ==> r == Ok::<Type, String>(Type::I32),
            block.stmts@.len() == 1 ==> (block.stmts@[0] matches Stmt::ExprStmt(e) ==> (e.kind matches ExprKind::Literal(l)
                ==> r == Ok::<Type, String>(literal_type(l)))),
            simple_block_type(block.stmts@) matches Some(t) ==> r == Ok::<Type, String>(t),
            block.stmts@.len() > 0 && mismatched_let(block.stmts@[0])
                ==> (r matches Err(m) && m@ == let_mismatch_message(block.stmts@[0])),
        decreases block, 3int,
    {
        self.check_block_with_expected(block, None)
    }

    /// The type of a block, a trailing expression statement checked with the expected type.
    #[verifier::loop_isolation(false)]
    fn check_block_with_expected(&mut self, block: &Block, expected: Option<&Type>) -> (r: Result<Type, String>)
        requires
            old(self).wf(),
        ensures
            TypeChecker::tables_kept(*final(self), *old(self)),
            r is Ok ==> TypeChecker::balanced(*final(self), *old(self)),
            block.stmts@.len() == 0 ==> r == Ok::<Type, String>(Type::I32),
            block.stmts@.len() == 1 && expected is None ==> (block.stmts@[0] matches Stmt::ExprStmt(e)
                ==> (e.kind matches ExprKind::Literal(l) ==> r == Ok::<Type, String>(literal_type(l)))),
            simple_block_type(block.stmts@) matches Some(t) ==> r == Ok::<Type, String>(t),
            block.stmts@.len() > 0 && mismatched_let(block.stmts@[0])
                ==> (r matches Err(m) && m@ == let_mismatch_message(block.stmts@[0])),
        decreases block, 2int,
    {
        let mut last_type = Type::I32;
        let n = block.stmts.len();
        let mut i: usize = 0;
        while i < n
            invariant
                self.wf(),
                TypeChecker::tables_kept(*self, *old(self)),
                TypeChecker::balanced(*self, *old(self)),
                i <= n,
                n == block.stmts@.len(),
                n == 0 ==> last_type == Type::I32,
                simple_block_type(block.stmts@) is Some && n == 1 && i == 1 ==> last_type == Type::Unit,
                simple_block_type(block.stmts@) is Some && n == 2 && 1 <= i
                    ==> self.var_type(let_name(block.stmts@[0])) == Some(let_annotation(block.stmts@[0])),
                simple_block_type(block.stmts@) is Some && n == 2 && i == 2 ==> last_type == let_annotation(block.stmts@[0]),
                n > 0 && mismatched_let(block.stmts@[0]) ==> i == 0,
                n == 1 && expected is None && i == 1 ==> (block.stmts@[0] matches Stmt::ExprStmt(e)
                    ==> (e.kind matches ExprKind::Literal(l) ==> last_type == literal_type(l))),
            decreases n - i,
        {
            proof {
                broadcast use vstd::std_specs::vec::axiom_vec_index_decreases;
                assert(decreases_to!(block.stmts => block.stmts[i as int]));
            }
            let stmt = &block.stmts[i];
            let mut done = false;
            if i + 1 == n {
                if let Stmt::ExprStmt(e) = stmt {
                    last_type = self.check_expr_with_expected(e, expected)?;
                    done = true;
                }
            }
            if !done {
                last_type = self.check_stmt(stmt)?;
            }
            i += 1;
        }
        Ok(last_type)
    }

    /// Checks a statement. `let` checks its initializer against the annotation (whose struct
    /// or enum kind is corrected from the tables) and declares the name; `persist` needs a
    /// tensor. `return e` checks `e` against the function's return type. In a model, `while`
    /// needs a constant condition and `for` a constant range. The loop variable of `for` has
    /// the iterable's type. Assignment targets are variables, fields or elements.
    #[verifier::loop_isolation(false)]
    pub fn check_stmt(&mut self, stmt: &Stmt) -> (r: Result<Type, String>)
        requires
            old(self).wf(),
        ensures
            TypeChecker::tables_kept(*final(self), *old(self)),
            r is Ok ==> TypeChecker::balanced(*final(self), *old(self)),
            r is Ok && (stmt is Let || stmt is Return || stmt is While || stmt is Assign || stmt is Break) ==> r == Ok::<Type, String>(Type::Unit),
            stmt matches Stmt::Let(l) ==> (r is Ok ==> final(self).var_type(l.name@) is Some
                && (l.ty matches Some(a) ==> (!(a is Struct) && !(a is Enum)
                    ==> (final(self).var_type(l.name@) matches Some(t) && type_same(t, a))))),
            stmt matches Stmt::Let(l) ==> (l.init.kind matches ExprKind::Literal(li) ==> (l.ty matches Some(a) ==> (is_plain(a)
                ==> if !types_eq(literal_init_type(li, a), a) {
                    r matches Err(m) && m@ == "type mismatch: expected "@ + type_text(a) + ", got "@ + type_text(literal_init_type(li, a))
                } else if l.persist {
                    r is Err
                } else {
                    r == Ok::<Type, String>(Type::Unit) && final(self).var_type(l.name@) == Some(a)
                }))),
            stmt matches Stmt::Let(l) ==> (l.init.kind matches ExprKind::Literal(li) ==> (l.ty is None ==> if l.persist {
                    r is Err
                } else {
                    r == Ok::<Type, String>(Type::Unit) && (final(self).var_type(l.name@) matches Some(t)
                        && type_same(t, literal_type(li)))
                })),
            stmt matches Stmt::ExprStmt(e) ==> (e.kind matches ExprKind::Ident(n) ==> old(self).name_result(n@, r)),
            stmt matches Stmt::Assign(a) ==> (!(a.target.kind is Ident || a.target.kind is FieldAccess
                || a.target.kind is Index) ==> r is Err),
            stmt matches Stmt::Assign(a) ==> (!(a.target.kind is Ident || a.target.kind is FieldAccess
                || a.target.kind is Index) ==> (r matches Err(m) && m@ == "invalid assignment target（只能对变量、字段、索引赋值）"@)
                && *final(self) == *old(self)),
            stmt matches Stmt::Assign(a) ==> (a.target.kind matches ExprKind::Ident(x) ==> (x@ != "self"@
                ==> (old(self).var_type(x@) matches Some(t) ==> (is_plain(t) ==> (a.expr.kind matches ExprKind::Literal(li)
                ==> if types_eq(literal_init_type(li, t), t) {
                    r == Ok::<Type, String>(Type::Unit)
                } else {
                    r matches Err(m) && m@ == "type mismatch in assignment: expected "@ + type_text(t) + ", got "@
                        + type_text(literal_init_type(li, t))
                }))))),
            stmt matches Stmt::Let(l) ==> (l.ty matches Some(Type::Struct(n)) ==> (r is Ok
                ==> (final(self).var_type(l.name@) matches Some(t) && if struct_index(old(self).struct_defs(), n@) is Some {
                    t matches Type::Struct(m) && m@ == n@
                } else {
                    t matches Type::Enum(m) && m@ == n@
                }))),
            stmt matches Stmt::Let(l) ==> (l.persist && l.ty is None && r is Ok
                ==> (final(self).var_type(l.name@) matches Some(t) && t is Tensor)),
            stmt matches Stmt::Let(l) ==> (l.persist && r is Ok
                ==> (final(self).var_type(l.name@) matches Some(t) && stripped(t) is Tensor)),
            stmt matches Stmt::Let(l) ==> (l.ty is None && records_type(l.init.kind) && r is Ok
                ==> (final(self).var_type(l.name@) matches Some(t) && final(self).recorded_types().contains_key(l.init.id)
                    && type_same(t, final(self).recorded_types()[l.init.id]))),
            stmt matches Stmt::Return(e) ==> (e is None ==> r == Ok::<Type, String>(Type::Unit)),
            stmt matches Stmt::Return(Some(e)) ==> (e.kind matches ExprKind::Ident(n) ==> if old(self).undefined_name(n@) {
                    r matches Err(m) && m@ == "undefined variable or constant: "@ + n@
                } else {
                    r == Ok::<Type, String>(Type::Unit)
                }),
            stmt matches Stmt::Return(Some(e)) ==> (e.kind matches ExprKind::BinaryOp { op, left, right }
                ==> (old(self).atom_type(*left) matches Some(lt) ==> (old(self).atom_type(*right) matches Some(rt)
                ==> (r is Ok <==> binop_ok(op, lt, rt, is_int_literal(*left), is_int_literal(*right)))))),
            stmt matches Stmt::Break(_) ==> r == Ok::<Type, String>(Type::Unit) && *final(self) == *old(self),
            stmt matches Stmt::Loop(l) ==> (simple_block_type(l.body.stmts@) matches Some(t) ==> r == Ok::<Type, String>(t)),
            stmt matches Stmt::While(w) ==> (!old(self).checking_model() ==> (w.cond.kind matches ExprKind::Literal(li)
                ==> if literal_type(li) is Bool {
                    simple_block_type(w.body.stmts@) is Some ==> r == Ok::<Type, String>(Type::Unit)
                } else {
                    r matches Err(m) && m@ == "while condition must be bool"@
                })),
            stmt matches Stmt::While(w) ==> (old(self).checking_model()
                && !compile_time_constant(*w.cond, old(self).const_table()) ==> r is Err),
            stmt matches Stmt::For(f) ==> (old(self).checking_model()
                && !(f.iterable.kind matches ExprKind::Range { start, end }
                    && compile_time_constant(*start, old(self).const_table())
                    && compile_time_constant(*end, old(self).const_table())) ==> r is Err),
        decreases stmt, 4int,
    {
        match stmt {
            Stmt::Let(let_stmt) => {
                let init_type = self.check_expr_with_expected(&let_stmt.init, let_stmt.ty.as_ref())?;
                let resolved_ty = match &let_stmt.ty {
                    Some(ty) => self.resolve_type(ty)?,
                    None => copy_type(&init_type),
                };
                proof {
                    if let ExprKind::Literal(li) = &let_stmt.init.kind {
                        lemma_literal_type_plain(*li);
                        if let_stmt.ty is None {
                            lemma_same_plain(init_type, literal_type(*li));
                            lemma_same_plain(resolved_ty, literal_type(*li));
                        }
                        if let Some(a) = &let_stmt.ty {
                            if is_plain(*a) {
                                lemma_same_plain(init_type, literal_init_type(*li, *a));
                                lemma_same_plain(resolved_ty, *a);
                            }
                        }
                    }
                }
                if !self.types_equal(&init_type, &resolved_ty) {
                    let mut m = String::new();
                    push_str(&mut m, "type mismatch: expected ");
                    push_type(&mut m, &resolved_ty);
                    push_str(&mut m, ", got ");
                    push_type(&mut m, &init_type);
                    return Err(m);
                }
                if let_stmt.persist {
                    let is_tensor = match &init_type {
                        Type::Tensor { .. } => true,
                        _ => false,
                    };
                    if !is_tensor {
                        return Err("error[PS002]: persist binding requires Tensor type".to_string());
                    }
                    proof {
                        lemma_eq_tensor(init_type, resolved_ty);
                    }
                }
                proof {
                    if let_stmt.ty is None && records_type(let_stmt.init.kind) {
                        let rec = self.recorded_types()[let_stmt.init.id];
                        crate::properties::lemma_type_same_symmetric(rec, init_type);
                        crate::properties::lemma_type_same_transitive(resolved_ty, init_type, rec);
                    }
                }
                self.declare(let_stmt.name.clone(), resolved_ty);
                Ok(Type::Unit)
            },
            Stmt::ExprStmt(e) => self.check_expr(e),
            Stmt::Return(expr_opt) => {
                if let Some(e) = expr_opt {
                    let expected = copy_opt_type(&self.current_return_type);
                    self.check_expr_with_expected(e, expected.as_ref())?;
                }
                Ok(Type::Unit)
            },
            Stmt::While(while_stmt) => {
                if self.in_model && !self.is_compile_time_constant(&while_stmt.cond) {
                    return Err("error[MD004]: while loop upper bound must be compile-time constant or `Sym<N>`; runtime variable bounds require `tensor.while_loop`".to_string());
                }
                let cond_ty = self.check_expr(&while_stmt.cond)?;
                if !is_bool_type(&cond_ty) {
                    return Err("while condition must be bool".to_string());
                }
                self.check_block(&while_stmt.body)?;
                Ok(Type::Unit)
            },
            Stmt::For(for_stmt) => {
                if self.in_model {
                    let constant_range = match &for_stmt.iterable.kind {
                        ExprKind::Range { start, end } =>
                            self.is_compile_time_constant(start) && self.is_compile_time_constant(end),
                        _ => false,
                    };
                    if !constant_range {
                        return Err("error[MD005]: runtime iterators not allowed in model block; use compile-time ranges or `Sym<N>` ranges".to_string());
                    }
                }
                let elem_ty = self.check_expr(&for_stmt.iterable)?;
                let mut scope: Vec<(String, Type)> = Vec::new();
                scope.push((for_stmt.var.clone(), elem_ty));
                self.push_scope(scope);
                let body_type = self.check_block(&for_stmt.body)?;
                self.pop_scope();
                Ok(body_type)
            },
            Stmt::Assign(assign_stmt) => {
                if !self.is_assignable(&assign_stmt.target) {
                    return Err("invalid assignment target（只能对变量、字段、索引赋值）".to_string());
                }
                let target_ty = self.check_expr(&assign_stmt.target)?;
                let expr_ty = self.check_expr_with_expected(&assign_stmt.expr, Some(&target_ty))?;
                proof {
                    if let ExprKind::Ident(x) = &assign_stmt.target.kind {
                        if let Some(t) = old(self).var_type(x@) {
                            if is_plain(t) && x@ != "self"@ {
                                lemma_same_plain(target_ty, t);
                                if let ExprKind::Literal(li) = &assign_stmt.expr.kind {
                                    lemma_literal_type_plain(*li);
                                    lemma_same_plain(expr_ty, literal_init_type(*li, t));
                                    lemma_plain_eq(t);
                                }
                            }
                        }
                    }
                }
                if !self.types_equal(&expr_ty, &target_ty) {
                    let mut m = String::new();
                    push_str(&mut m, "type mismatch in assignment: expected ");
                    push_type(&mut m, &target_ty);
                    push_str(&mut m, ", got ");
                    push_type(&mut m, &expr_ty);
                    return Err(m);
                }
                Ok(Type::Unit)
            },
            Stmt::Loop(loop_stmt) => self.check_block(&loop_stmt.body),
            Stmt::Break(_) => Ok(Type::Unit),
            Stmt::UnsafeBlock(unsafe_stmt) => self.check_block(&unsafe_stmt.body),
        }
    }
}

} // verus!

verus! {

/// A parameter of type `&mut TrainingContext`.
pub open spec fn is_mut_training_context(t: Type) -> bool {
    t matches Type::Ref { mutable: true, inner } && (*inner matches Type::Struct(n) && n@ == "TrainingContext"@)
}

impl TypeChecker {
    /// Checks a function: not already being checked (no recursion), parameters declared
    /// (`self` as the current self type), the body against the declared return type (also
    /// its privacy label), and the training-context rule for `forward` in a model.
    fn check_fn_def(&mut self, fn_def: &FnDef) -> (r: Result<(), String>)
        requires
            old(self).wf(),
        ensures
            TypeChecker::tables_kept(*final(self), *old(self)),
            r is Ok ==> TypeChecker::balanced(*final(self), *old(self)),
            old(self).active_fns().contains(fn_def.name@) ==> r is Err,
            plain_fn(*fn_def) && !old(self).active_fns().contains(fn_def.name@) ==> r is Ok,
            simple_fn(*fn_def) && !old(self).active_fns().contains(fn_def.name@) ==> r is Ok,
            fn_with_mismatched_let(Item::FnDef(*fn_def), old(self).active_fns())
                ==> (r matches Err(m) && m@ == first_let_message(Item::FnDef(*fn_def))),
    {
        if find_string(&self.fn_stack, fn_def.name.as_str()).is_some() {
            return Err("error[MD002]: recursion not allowed in model block; graph must be topologically sortable".to_string());
        }
        self.fn_stack.push(fn_def.name.clone());
        self.push_scope(Vec::new());
        let mut k: usize = 0;
        while k < fn_def.params.len()
            invariant
                self.wf(),
                TypeChecker::tables_kept(*self, *old(self)),
                self.scopes@.len() == old(self).scopes@.len() + 1,
                self.fn_stack@ == old(self).fn_stack@.push(fn_def.name),
                k <= fn_def.params@.len(),
            decreases fn_def.params.len() - k,
        {
            let param = &fn_def.params[k];
            let ty = if str_eq(param.name.as_str(), "self") {
                match &self.current_self_type {
                    Some(t) => copy_type(t),
                    None => Type::SelfType,
                }
            } else {
                copy_type(&param.ty)
            };
            self.declare(param.name.clone(), ty);
            k += 1;
        }
        let mut saved = copy_opt_type(&fn_def.return_type);
        std::mem::swap(&mut saved, &mut self.current_return_type);
        let body_type_result = self.check_block_with_expected(&fn_def.body, fn_def.return_type.as_ref());
        std::mem::swap(&mut saved, &mut self.current_return_type);
        let body_type = body_type_result?;
        if let Some(expected) = &fn_def.return_type {
            if !self.types_equal(&body_type, expected) {
                let e = type_debug(expected);
                let g = type_debug(&body_type);
                return Err(cat(&vec!["expected return type ", e.as_str(), ", got ", g.as_str()]));
            }
            if !self.types_equal_with_privacy(&body_type, expected) {
                let e = type_debug(expected);
                let g = type_debug(&body_type);
                return Err(cat(&vec!["privacy label mismatch: expected ", e.as_str(), ", got ", g.as_str()]));
            }
        }
        self.check_forward_dp_requirement(fn_def)?;
        self.pop_scope();
        let _ = self.fn_stack.pop();
        proof {
            assert(self.fn_stack@ == old(self).fn_stack@);
        }
        Ok(())
    }

    /// Whether a privacy tag is a differential-privacy budget.
    fn is_differential(tag: &Option<PrivacyTag>) -> (r: bool)
        ensures
            r == (*tag matches Some(PrivacyTag::Differential { .. })),
    {
        match tag {
            Some(PrivacyTag::Differential { .. }) => true,
            _ => false,
        }
    }

    /// Whether a parameter has type `&mut TrainingContext`.
    fn is_mut_training_context_param(p: &Param) -> (r: bool)
        ensures
            r == is_mut_training_context(p.ty),
    {
        match &p.ty {
            Type::Ref { mutable: true, inner } => match &**inner {
                Type::Struct(name) => str_eq(name.as_str(), "TrainingContext"),
                _ => false,
            },
            _ => false,
        }
    }

    /// In a model, a `forward` with a parameter tagged with a differential-privacy budget
    /// must also take `&mut TrainingContext`.
    pub fn check_forward_dp_requirement(&self, fn_def: &FnDef) -> (r: Result<(), String>)
        ensures
            r is Err <==> self.checking_model() && fn_def.name@ == "forward"@
                && (exists|k: int| 0 <= k < fn_def.params@.len()
                    && (privacy_of(#[trigger] fn_def.params@[k].ty) matches Some(PrivacyTag::Differential { .. })))
                && !(exists|k: int| 0 <= k < fn_def.params@.len() && is_mut_training_context(#[trigger] fn_def.params@[k].ty)),
    {
        if !self.in_model || !str_eq(fn_def.name.as_str(), "forward") {
            return Ok(());
        }
        let mut has_dp_input = false;
        let mut k: usize = 0;
        while k < fn_def.params.len()
            invariant
                k <= fn_def.params@.len(),
                has_dp_input == exists|j: int| 0 <= j < k
                    && (privacy_of(#[trigger] fn_def.params@[j].ty) matches Some(PrivacyTag::Differential { .. })),
            decreases fn_def.params.len() - k,
        {
            let tag = self.extract_privacy_tag(&fn_def.params[k].ty);
            if Self::is_differential(&tag) {
                has_dp_input = true;
            }
            k += 1;
        }
        if !has_dp_input {
            return Ok(());
        }
        let mut has_ctx = false;
        let mut k: usize = 0;
        while k < fn_def.params.len()
            invariant
                k <= fn_def.params@.len(),
                has_ctx == exists|j: int| 0 <= j < k && is_mut_training_context(#[trigger] fn_def.params@[j].ty),
            decreases fn_def.params.len() - k,
        {
            if Self::is_mut_training_context_param(&fn_def.params[k]) {
                has_ctx = true;
            }
            k += 1;
        }
        if !has_ctx {
            return Err("error[PR001]: forward with dp(ε) input requires `&mut TrainingContext`".to_string());
        }
        Ok(())
    }
}


// ===== filing declarations by name =====

proof fn lemma_struct_index_update(v: Seq<StructDef>, i: int, x: StructDef, n: Seq<char>)
    requires
        0 <= i < v.len(),
        x.name@ == v[i].name@,
    ensures
        struct_index(v.update(i, x), n) == struct_index(v, n),
    decreases v.len(),
{
    if i == v.len() - 1 {
        assert(v.update(i, x).drop_last() =~= v.drop_last());
    } else {
        assert(v.update(i, x).drop_last() =~= v.drop_last().update(i, x));
        lemma_struct_index_update(v.drop_last(), i, x, n);
    }
}

proof fn lemma_enum_index_update(v: Seq<EnumDef>, i: int, x: EnumDef, n: Seq<char>)
    requires
        0 <= i < v.len(),
        x.name@ == v[i].name@,
    ensures
        enum_index(v.update(i, x), n) == enum_index(v, n),
    decreases v.len(),
{
    if i == v.len() - 1 {
        assert(v.update(i, x).drop_last() =~= v.drop_last());
    } else {
        assert(v.update(i, x).drop_last() =~= v.drop_last().update(i, x));
        lemma_enum_index_update(v.drop_last(), i, x, n);
    }
}

proof fn lemma_fn_index_update(v: Seq<FnDef>, i: int, x: FnDef, n: Seq<char>)
    requires
        0 <= i < v.len(),
        x.name@ == v[i].name@,
    ensures
        fn_index(v.update(i, x), n) == fn_index(v, n),
    decreases v.len(),
{
    if i == v.len() - 1 {
        assert(v.update(i, x).drop_last() =~= v.drop_last());
    } else {
        assert(v.update(i, x).drop_last() =~= v.drop_last().update(i, x));
        lemma_fn_index_update(v.drop_last(), i, x, n);
    }
}

proof fn lemma_method_index_update(v: Seq<MethodInfo>, i: int, x: MethodInfo, n: Seq<char>)
    requires
        0 <= i < v.len(),
        x.fn_def.name@ == v[i].fn_def.name@,
    ensures
        method_index(v.update(i, x), n) == method_index(v, n),
    decreases v.len(),
{
    if i == v.len() - 1 {
        assert(v.update(i, x).drop_last() =~= v.drop_last());
    } else {
        assert(v.update(i, x).drop_last() =~= v.drop_last().update(i, x));
        lemma_method_index_update(v.drop_last(), i, x, n);
    }
}

proof fn lemma_pair_index_update<V>(v: Seq<(String, V)>, i: int, x: (String, V), n: Seq<char>)
    requires
        0 <= i < v.len(),
        x.0@ == v[i].0@,
    ensures
        pair_index(v.update(i, x), n) == pair_index(v, n),
    decreases v.len(),
{
    if i == v.len() - 1 {
        assert(v.update(i, x).drop_last() =~= v.drop_last());
    } else {
        assert(v.update(i, x).drop_last() =~= v.drop_last().update(i, x));
        lemma_pair_index_update(v.drop_last(), i, x, n);
    }
}

/// Files a struct under its name: a struct of that name is replaced, else it is appended.
fn upsert_struct(v: &mut Vec<StructDef>, d: StructDef)
    ensures
        forall|n: Seq<char>| #[trigger] struct_index(old(v)@, n) is Some ==> struct_index(final(v)@, n) is Some,
        struct_index(final(v)@, d.name@) matches Some(j) && final(v)@[j] == d,
{
    let ghost dd = d;
    match find_struct_in(v, d.name.as_str()) {
        Some(i) => {
            proof {
                assert forall|n: Seq<char>| struct_index(old(v)@.update(i as int, dd), n) == struct_index(old(v)@, n) by {
                    lemma_struct_index_update(old(v)@, i as int, dd, n);
                }
            }
            v.set(i, d);
        },
        None => {
            proof {
                assert forall|n: Seq<char>| struct_index(old(v)@, n) is Some implies struct_index(old(v)@.push(dd), n) == struct_index(old(v)@, n) by {
                    assert(old(v)@.push(dd).drop_last() =~= old(v)@);
                }
                assert(old(v)@.push(dd).drop_last() =~= old(v)@);
            }
            v.push(d);
        },
    }
}

/// Files an enum under its name: an enum of that name is replaced, else it is appended.
fn upsert_enum(v: &mut Vec<EnumDef>, d: EnumDef)
    ensures
        forall|n: Seq<char>| #[trigger] enum_index(old(v)@, n) is Some ==> enum_index(final(v)@, n) is Some,
        enum_index(final(v)@, d.name@) matches Some(j) && final(v)@[j] == d,
{
    let ghost dd = d;
    match find_enum_in(v, d.name.as_str()) {
        Some(i) => {
            proof {
                assert forall|n: Seq<char>| enum_index(old(v)@.update(i as int, dd), n) == enum_index(old(v)@, n) by {
                    lemma_enum_index_update(old(v)@, i as int, dd, n);
                }
            }
            v.set(i, d);
        },
        None => {
            proof {
                assert forall|n: Seq<char>| enum_index(old(v)@, n) is Some implies enum_index(old(v)@.push(dd), n) == enum_index(old(v)@, n) by {
                    assert(old(v)@.push(dd).drop_last() =~= old(v)@);
                }
                assert(old(v)@.push(dd).drop_last() =~= old(v)@);
            }
            v.push(d);
        },
    }
}

/// Files a function under its name: a function of that name is replaced, else it is appended.
fn upsert_fn(v: &mut Vec<FnDef>, d: FnDef)
    ensures
        forall|n: Seq<char>| #[trigger] fn_index(old(v)@, n) is Some ==> fn_index(final(v)@, n) is Some,
        fn_index(final(v)@, d.name@) matches Some(j) && final(v)@[j] == d,
{
    let ghost dd = d;
    match find_fn_in(v, d.name.as_str()) {
        Some(i) => {
            proof {
                assert forall|n: Seq<char>| fn_index(old(v)@.update(i as int, dd), n) == fn_index(old(v)@, n) by {
                    lemma_fn_index_update(old(v)@, i as int, dd, n);
                }
            }
            v.set(i, d);
        },
        None => {
            proof {
                assert forall|n: Seq<char>| fn_index(old(v)@, n) is Some implies fn_index(old(v)@.push(dd), n) == fn_index(old(v)@, n) by {
                    assert(old(v)@.push(dd).drop_last() =~= old(v)@);
                }
                assert(old(v)@.push(dd).drop_last() =~= old(v)@);
            }
            v.push(d);
        },
    }
}

/// Files a method under its name: a method of that name is replaced, else it is appended.
fn upsert_method(v: &mut Vec<MethodInfo>, d: MethodInfo)
    ensures
        forall|n: Seq<char>| #[trigger] method_index(old(v)@, n) is Some ==> method_index(final(v)@, n) is Some,
        method_index(final(v)@, d.fn_def.name@) matches Some(j) && final(v)@[j] == d,
{
    let ghost dd = d;
    match find_method_in(v, d.fn_def.name.as_str()) {
        Some(i) => {
            proof {
                assert forall|n: Seq<char>| method_index(old(v)@.update(i as int, dd), n) == method_index(old(v)@, n) by {
                    lemma_method_index_update(old(v)@, i as int, dd, n);
                }
            }
            v.set(i, d);
        },
        None => {
            proof {
                assert forall|n: Seq<char>| method_index(old(v)@, n) is Some implies method_index(old(v)@.push(dd), n) == method_index(old(v)@, n) by {
                    assert(old(v)@.push(dd).drop_last() =~= old(v)@);
                }
                assert(old(v)@.push(dd).drop_last() =~= old(v)@);
            }
            v.push(d);
        },
    }
}

/// Files a value under a name: the pair with that name is replaced, else one is appended.
fn upsert_pair<V>(v: &mut Vec<(String, V)>, name: String, val: V)
    ensures
        forall|n: Seq<char>| #[trigger] pair_index(old(v)@, n) is Some ==> pair_index(final(v)@, n) is Some,
        pair_index(final(v)@, name@) matches Some(j) && final(v)@[j] == (name, val),
{
    let ghost x = (name, val);
    match find_pair(v, &name) {
        Some(i) => {
            proof {
                assert forall|n: Seq<char>| pair_index(old(v)@.update(i as int, x), n) == pair_index(old(v)@, n) by {
                    lemma_pair_index_update(old(v)@, i as int, x, n);
                }
            }
            v.set(i, (name, val));
        },
        None => {
            proof {
                assert forall|n: Seq<char>| pair_index(old(v)@, n) is Some implies pair_index(old(v)@.push(x), n) == pair_index(old(v)@, n) by {
                    assert(old(v)@.push(x).drop_last() =~= old(v)@);
                }
                assert(old(v)@.push(x).drop_last() =~= old(v)@);
            }
            v.push((name, val));
        },
    }
}


/// The key under which the methods of an implement block for `t` are filed (see
/// `type_key_for_impl_target`).
pub open spec fn impl_key(t: Type) -> Option<Seq<char>> {
    match t {
        Type::Struct(n) => Some(n@),
        Type::Enum(n) => Some(n@),
        Type::Generic(n, _) => Some(n@),
        _ => None,
    }
}

/// Index of the first attribute named `name`.
pub open spec fn attr_index(attrs: Seq<Attribute>, name: Seq<char>) -> Option<int>
    decreases attrs.len(),
{
    if attrs.len() == 0 {
        None
    } else {
        match attr_index(attrs.drop_last(), name) {
            Some(i) => Some(i),
            None => if attrs.last().name@ == name { Some(attrs.len() - 1) } else { None },
        }
    }
}

/// Index of the first `key = value` argument with the given key.
pub open spec fn key_index(args: Seq<AttributeArg>, key: Seq<char>) -> Option<int>
    decreases args.len(),
{
    if args.len() == 0 {
        None
    } else {
        match key_index(args.drop_last(), key) {
            Some(i) => Some(i),
            None => if args.last() matches AttributeArg::KeyValue(k, _) && k@ == key { Some(args.len() - 1) } else { None },
        }
    }
}

/// The sensitivity a function declares: in its first `sensitivity` attribute, the value of
/// the first `const` key, where that is a rational.
pub open spec fn declared_sensitivity(f: FnDef) -> Option<Seq<char>> {
    match attr_index(f.attributes@, "sensitivity"@) {
        Some(a) => match key_index(f.attributes@[a].args@, "const"@) {
            Some(j) => match f.attributes@[a].args@[j] {
                AttributeArg::KeyValue(_, v) => match *v {
                    AttributeArg::Rational(x) => Some(x@),
                    _ => None,
                },
                _ => None,
            },
            None => None,
        },
        None => None,
    }
}

/// The first `sensitivity` attribute's `const = n/d` value, where it is a rational.
fn const_sensitivity(f: &FnDef) -> (r: Option<String>)
    ensures
        match declared_sensitivity(*f) {
            Some(x) => r matches Some(v) && v@ == x,
            None => r is None,
        },
{
    let mut k: usize = 0;
    while k < f.attributes.len()
        invariant
            k <= f.attributes@.len(),
            attr_index(f.attributes@.take(k as int), "sensitivity"@) is None,
        decreases f.attributes.len() - k,
    {
        assert(f.attributes@.take(k as int + 1).drop_last() == f.attributes@.take(k as int));
        if str_eq(f.attributes[k].name.as_str(), "sensitivity") {
            proof {
                lemma_attr_index_prefix(f.attributes@, k as int + 1, "sensitivity"@);
            }
            let attr = &f.attributes[k];
            let mut j: usize = 0;
            while j < attr.args.len()
                invariant
                    j <= attr.args@.len(),
                    k < f.attributes@.len(),
                    *attr == f.attributes@[k as int],
                    attr_index(f.attributes@, "sensitivity"@) == Some(k as int),
                    key_index(attr.args@.take(j as int), "const"@) is None,
                decreases attr.args.len() - j,
            {
                assert(attr.args@.take(j as int + 1).drop_last() == attr.args@.take(j as int));
                if let AttributeArg::KeyValue(key, val) = &attr.args[j] {
                    if str_eq(key.as_str(), "const") {
                        proof {
                            lemma_key_index_prefix(attr.args@, j as int + 1, "const"@);
                        }
                        return match &**val {
                            AttributeArg::Rational(v) => Some(v.clone()),
                            _ => None,
                        };
                    }
                }
                j += 1;
            }
            assert(attr.args@.take(attr.args@.len() as int) == attr.args@);
            return None;
        }
        k += 1;
    }
    assert(f.attributes@.take(f.attributes@.len() as int) == f.attributes@);
    None
}

proof fn lemma_attr_index_prefix(v: Seq<Attribute>, n: int, name: Seq<char>)
    requires
        0 < n <= v.len(),
        attr_index(v.take(n - 1), name) is None,
        v[n - 1].name@ == name,
    ensures
        attr_index(v, name) == Some(n - 1),
    decreases v.len(),
{
    assert(v.take(n).drop_last() == v.take(n - 1));
    if n < v.len() {
        assert(v.drop_last().take(n) == v.take(n));
        assert(v.drop_last().take(n - 1) == v.take(n - 1));
        lemma_attr_index_prefix(v.drop_last(), n, name);
    } else {
        assert(v.take(n) == v);
        assert(v.drop_last() == v.take(n - 1));
    }
}

proof fn lemma_key_index_prefix(v: Seq<AttributeArg>, n: int, key: Seq<char>)
    requires
        0 < n <= v.len(),
        key_index(v.take(n - 1), key) is None,
        v[n - 1] matches AttributeArg::KeyValue(k, _) && k@ == key,
    ensures
        key_index(v, key) == Some(n - 1),
    decreases v.len(),
{
    assert(v.take(n).drop_last() == v.take(n - 1));
    if n < v.len() {
        assert(v.drop_last().take(n) == v.take(n));
        assert(v.drop_last().take(n - 1) == v.take(n - 1));
        lemma_key_index_prefix(v.drop_last(), n, key);
    } else {
        assert(v.take(n) == v);
        assert(v.drop_last() == v.take(n - 1));
    }
}

impl TypeChecker {
    /// Whether the declaration `item` is filed in the tables under its name: a function,
    /// struct, enum or constant by its name, a model as a model name and as a struct, and each
    /// method of an implement block under the block's key.
    pub closed spec fn declared(&self, item: Item) -> bool {
        match item {
            Item::FnDef(f) => fn_index(self.functions@, f.name@) is Some,
            Item::StructDef(d) => struct_index(self.structs@, d.name@) is Some,
            Item::EnumDef(e) => enum_index(self.enums@, e.name@) is Some,
            Item::ConstDef(c) => pair_index(self.consts@, c.name@) is Some,
            Item::ModelDef(m) => string_views(self.model_names@).contains(m.name@)
                && struct_index(self.structs@, m.name@) is Some,
            Item::Implement(imp) => match impl_key(imp.target_type) {
                Some(key) => pair_index(self.methods@, key) matches Some(t)
                    && 0 <= t < self.methods@.len()
                    && forall|k: int| 0 <= k < imp.functions@.len()
                        ==> method_index(self.methods@[t].1@, #[trigger] imp.functions@[k].name@) is Some,
                None => true,
            },
            _ => true,
        }
    }

    /// Every name filed in `old` is still filed in `new`; scopes, function context and
    /// recorded types are unchanged.
    pub closed spec fn grown(new: TypeChecker, old: TypeChecker) -> bool {
        &&& forall|n: Seq<char>| #[trigger] struct_index(old.structs@, n) is Some ==> struct_index(new.structs@, n) is Some
        &&& forall|n: Seq<char>| #[trigger] enum_index(old.enums@, n) is Some ==> enum_index(new.enums@, n) is Some
        &&& forall|n: Seq<char>| #[trigger] fn_index(old.functions@, n) is Some ==> fn_index(new.functions@, n) is Some
        &&& forall|n: Seq<char>| #[trigger] pair_index(old.consts@, n) is Some ==> pair_index(new.consts@, n) is Some
        &&& forall|n: Seq<char>| #[trigger] string_views(old.model_names@).contains(n) ==> string_views(new.model_names@).contains(n)
        &&& forall|n: Seq<char>| #[trigger] pair_index(old.methods@, n) is Some ==> pair_index(new.methods@, n) == pair_index(old.methods@, n)
        &&& old.methods@.len() <= new.methods@.len()
        &&& forall|t: int, n: Seq<char>| 0 <= t < old.methods@.len() && #[trigger] method_index(old.methods@[t].1@, n) is Some
            ==> method_index(new.methods@[t].1@, n) is Some
        &&& new.scopes == old.scopes
        &&& new.fn_stack == old.fn_stack
        &&& new.in_model == old.in_model
        &&& new.current_self_type == old.current_self_type
        &&& new.current_return_type == old.current_return_type
        &&& new.expr_types == old.expr_types
    }

    /// The sensitivities declared by the models' `forward` functions, by model name.
    pub closed spec fn model_sensitivity_table(&self) -> Seq<(String, String)> {
        self.model_sensitivities@
    }

    /// What the model `m` has filed from its `forward`: its return type and its declared
    /// sensitivity, where it has them.
    pub open spec fn model_filed(&self, m: ModelDef) -> bool {
        fn_index(m.functions@, "forward"@) matches Some(i) ==> {
            &&& (m.functions@[i].return_type matches Some(ret) ==> (pair_index(self.model_returns(), m.name@) matches Some(j)
                && type_same(self.model_returns()[j].1, ret)))
            &&& (declared_sensitivity(m.functions@[i]) matches Some(x) ==> (pair_index(self.model_sensitivity_table(), m.name@)
                matches Some(j) && self.model_sensitivity_table()[j].1@ == x))
        }
    }

    /// The symbol tables are as in `old` and the checker is well formed.
    pub closed spec fn same_tables(new: TypeChecker, old: TypeChecker) -> bool {
        &&& new.structs == old.structs
        &&& new.enums == old.enums
        &&& new.consts == old.consts
        &&& new.functions == old.functions
        &&& new.methods == old.methods
        &&& new.model_names == old.model_names
        &&& new.model_return_types == old.model_return_types
        &&& new.model_sensitivities == old.model_sensitivities
        &&& new.wf()
    }

    proof fn lemma_declared_grown(new: TypeChecker, old: TypeChecker, item: Item)
        requires
            TypeChecker::grown(new, old),
            old.declared(item),
        ensures
            new.declared(item),
    {
        if let Item::Implement(imp) = item {
            if let Some(key) = impl_key(imp.target_type) {
                let t = pair_index(old.methods@, key)->0;
                assert(pair_index(new.methods@, key) == pair_index(old.methods@, key));
                assert forall|k: int| 0 <= k < imp.functions@.len()
                    implies method_index(new.methods@[t].1@, #[trigger] imp.functions@[k].name@) is Some by {
                    assert(method_index(old.methods@[t].1@, imp.functions@[k].name@) is Some);
                }
            }
        }
    }

    /// Files a model: its name, a struct of its fields with privacy tags stripped, and, from
    /// its `forward`, the return type and a `sensitivity(const = ..)` value.
    fn register_model(&mut self, m: &ModelDef)
        requires
            old(self).wf(),
        ensures
            TypeChecker::grown(*final(self), *old(self)),
            final(self).declared(Item::ModelDef(*m)),
            final(self).model_filed(*m),
    {
        self.register_model_name(m);
        self.register_model_struct(m);
        self.collect_forward_info(m);
    }

    /// Files the model's name among the model names.
    fn register_model_name(&mut self, m: &ModelDef)
        requires
            old(self).wf(),
        ensures
            final(self).wf(),
            TypeChecker::grown(*final(self), *old(self)),
            string_views(final(self).model_names@).contains(m.name@),
            final(self).structs == old(self).structs,
            final(self).model_return_types == old(self).model_return_types,
            final(self).model_sensitivities == old(self).model_sensitivities,
    {
        if find_string(&self.model_names, m.name.as_str()).is_none() {
            let name = m.name.clone();
            proof {
                lemma_views_push(self.model_names@, name);
                let old_names = string_views(self.model_names@);
                assert forall|n: Seq<char>| old_names.contains(n) implies old_names.push(name@).contains(n) by {
                    let j = choose|j: int| 0 <= j < old_names.len() && old_names[j] == n;
                    assert(old_names.push(name@)[j] == n);
                }
                assert(old_names.push(name@)[old_names.len() as int] == m.name@);
            }
            self.model_names.push(name);
        }
    }

    /// Files a struct named after the model, of its fields with privacy tags stripped.
    fn register_model_struct(&mut self, m: &ModelDef)
        requires
            old(self).wf(),
        ensures
            final(self).wf(),
            TypeChecker::grown(*final(self), *old(self)),
            struct_index(final(self).structs@, m.name@) is Some,
            final(self).model_names == old(self).model_names,
            final(self).model_return_types == old(self).model_return_types,
            final(self).model_sensitivities == old(self).model_sensitivities,
    {
        let mut fields: Vec<StructField> = Vec::new();
        let mut k: usize = 0;
        while k < m.fields.len()
            invariant
                k <= m.fields@.len(),
            decreases m.fields.len() - k,
        {
            let ty = self.strip_privacy(&m.fields[k].ty);
            fields.push(StructField { name: m.fields[k].name.clone(), ty });
            k += 1;
        }
        let def = StructDef { name: m.name.clone(), fields, generic_params: copy_generic_params(&m.generic_params) };
        upsert_struct(&mut self.structs, def);
    }

    /// Files, from the model's `forward`, its return type and its declared sensitivity.
    fn collect_forward_info(&mut self, m: &ModelDef)
        requires
            old(self).wf(),
        ensures
            final(self).wf(),
            TypeChecker::grown(*final(self), *old(self)),
            final(self).model_filed(*m),
            final(self).model_names == old(self).model_names,
            final(self).structs == old(self).structs,
    {
        if let Some(i) = find_fn_in(&m.functions, "forward") {
            let forward = &m.functions[i];
            if let Some(ret) = &forward.return_type {
                upsert_pair(&mut self.model_return_types, m.name.clone(), copy_type(ret));
            }
            if let Some(v) = const_sensitivity(forward) {
                upsert_pair(&mut self.model_sensitivities, m.name.clone(), v);
            }
        }
    }

    /// Files the methods of an implement block under the block's key; a method of the same
    /// name filed there before is replaced.
    fn register_methods(&mut self, key: String, imp: &ImplementDef)
        requires
            old(self).wf(),
            impl_key(imp.target_type) == Some(key@),
        ensures
            TypeChecker::grown(*final(self), *old(self)),
            final(self).declared(Item::Implement(*imp)),
            final(self).model_return_types == old(self).model_return_types,
            final(self).model_sensitivities == old(self).model_sensitivities,
    {
        let ghost kk = key@;
        let t = match find_pair(&self.methods, &key) {
            Some(t) => t,
            None => {
                let fresh: (String, Vec<MethodInfo>) = (key, Vec::new());
                let ghost fx = fresh;
                proof {
                    assert forall|n: Seq<char>| pair_index(self.methods@, n) is Some
                        implies pair_index(self.methods@.push(fx), n) == pair_index(self.methods@, n) by {
                        assert(self.methods@.push(fx).drop_last() =~= self.methods@);
                    }
                    assert(self.methods@.push(fx).drop_last() =~= self.methods@);
                }
                self.methods.push(fresh);
                self.methods.len() - 1
            },
        };
        let ghost mid = *self;
        assert(pair_index(mid.methods@, kk) == Some(t as int));
        let mut entry: (String, Vec<MethodInfo>) = (String::new(), Vec::new());
        std::mem::swap(&mut entry, &mut self.methods[t]);
        assert(entry == mid.methods@[t as int]);
        let mut k: usize = 0;
        while k < imp.functions.len()
            invariant
                k <= imp.functions@.len(),
                entry.0@ == mid.methods@[t as int].0@,
                forall|n: Seq<char>| #[trigger] method_index(mid.methods@[t as int].1@, n) is Some ==> method_index(entry.1@, n) is Some,
                forall|j: int| 0 <= j < k ==> method_index(entry.1@, #[trigger] imp.functions@[j].name@) is Some,
            decreases imp.functions.len() - k,
        {
            let info = MethodInfo { fn_def: copy_fn_def(&imp.functions[k]), target_type: copy_type(&imp.target_type) };
            upsert_method(&mut entry.1, info);
            k += 1;
        }
        std::mem::swap(&mut entry, &mut self.methods[t]);
        proof {
            let upd = mid.methods@.update(t as int, self.methods@[t as int]);
            assert(self.methods@ =~= upd);
            assert forall|n: Seq<char>| pair_index(upd, n) == pair_index(mid.methods@, n) by {
                lemma_pair_index_update(mid.methods@, t as int, self.methods@[t as int], n);
            }
        }
    }

    /// Files one item of a program under its name.
    fn collect_item(&mut self, item: &Item)
        requires
            old(self).wf(),
        ensures
            TypeChecker::grown(*final(self), *old(self)),
            final(self).declared(*item),
    {
        match item {
            Item::FnDef(f) => {
                upsert_fn(&mut self.functions, copy_fn_def(f));
            },
            Item::StructDef(d) => {
                upsert_struct(&mut self.structs, copy_struct_def(d));
            },
            Item::EnumDef(e) => {
                upsert_enum(&mut self.enums, copy_enum_def(e));
            },
            Item::ConstDef(c) => {
                upsert_pair(&mut self.consts, c.name.clone(), copy_type(&c.ty));
            },
            Item::ModelDef(m) => {
                self.register_model(m);
            },
            Item::Implement(imp) => {
                if let Some(key) = Self::type_key_for_impl_target(&imp.target_type) {
                    self.register_methods(key, imp);
                }
            },
            _ => {},
        }
    }

    /// Files a model's declarations (see [`TypeChecker::declared`]); this always succeeds.
    pub fn collect_model_def(&mut self, m: &ModelDef) -> (r: Result<(), String>)
        requires
            old(self).wf(),
        ensures
            r is Ok,
            TypeChecker::grown(*final(self), *old(self)),
            final(self).declared(Item::ModelDef(*m)),
            final(self).model_filed(*m),
    {
        self.register_model(m);
        Ok(())
    }
}


impl TypeChecker {
    /// A parameter type that names a struct or an enum names a declared one.
    pub closed spec fn param_type_known(&self, ty: Type) -> bool {
        match ty {
            Type::Struct(n) => struct_index(self.structs@, n@) is Some,
            Type::Enum(n) => enum_index(self.enums@, n@) is Some,
            _ => true,
        }
    }

    /// A parameter type that names a struct or an enum names a declared struct or enum.
    pub closed spec fn param_type_resolves(&self, ty: Type) -> bool {
        match ty {
            Type::Struct(n) | Type::Enum(n) => struct_index(self.structs@, n@) is Some
                || enum_index(self.enums@, n@) is Some,
            _ => true,
        }
    }

    /// Every parameter type of every function of `m` resolves (see
    /// [`TypeChecker::param_type_resolves`]).
    pub open spec fn model_params_resolve(&self, m: ModelDef) -> bool {
        forall|i: int, j: int| 0 <= i < m.functions@.len() && 0 <= j < m.functions@[i].params@.len()
            ==> self.param_type_resolves(#[trigger] m.functions@[i].params@[j].ty)
    }

    /// Every parameter of every function of `m` has a known type (see
    /// [`TypeChecker::param_type_known`]).
    pub open spec fn model_params_known(&self, m: ModelDef) -> bool {
        forall|i: int, j: int| 0 <= i < m.functions@.len() && 0 <= j < m.functions@[i].params@.len()
            ==> self.param_type_known(#[trigger] m.functions@[i].params@[j].ty)
    }

    /// Checks the functions of a model with `self` standing for the model's struct; each
    /// parameter that names a struct or an enum must name a declared one.
    fn check_model_item(&mut self, m: &ModelDef) -> (r: Result<(), String>)
        requires
            old(self).wf(),
        ensures
            TypeChecker::same_tables(*final(self), *old(self)),
            r is Ok ==> TypeChecker::balanced(*final(self), *old(self)),
            r is Ok ==> fn_index(m.functions@, "forward"@) is Some && final(self).model_params_known(*m),
            r is Ok ==> !final(self).checking_model(),
            fn_index(m.functions@, "forward"@) is Some && plain_fns(m.functions@, old(self).active_fns()) ==> r is Ok,
            fn_index(m.functions@, "forward"@) is None ==> (r matches Err(e) && e@ == forward_missing(m.name@)),
            model_with_mismatched_let(*m, old(self).active_fns())
                ==> (r matches Err(e) && e@ == first_let_message(Item::FnDef(m.functions@[0]))),
    {
        if find_fn_in(&m.functions, "forward").is_none() {
            let mut msg = String::new();
            push_str(&mut msg, "model '");
            push_str(&mut msg, m.name.as_str());
            push_str(&mut msg, "' must define a 'forward' function");
            return Err(msg);
        }
        self.in_model = true;
        self.current_self_type = Some(Type::Struct(m.name.clone()));
        let mut k: usize = 0;
        while k < m.functions.len()
            invariant
                fn_index(m.functions@, "forward"@) is Some,
                TypeChecker::same_tables(*self, *old(self)),
                TypeChecker::balanced(*self, *old(self)),
                k <= m.functions@.len(),
                forall|i: int, j: int| 0 <= i < k && 0 <= j < m.functions@[i].params@.len()
                    ==> self.param_type_known(#[trigger] m.functions@[i].params@[j].ty),
                model_with_mismatched_let(*m, old(self).active_fns()) ==> k == 0,
            decreases m.functions.len() - k,
        {
            let f = &m.functions[k];
            let mut j: usize = 0;
            while j < f.params.len()
                invariant
                    fn_index(m.functions@, "forward"@) is Some,
                    TypeChecker::same_tables(*self, *old(self)),
                    j <= f.params@.len(),
                    k < m.functions@.len(),
                    f == m.functions@[k as int],
                    plain_fns(m.functions@, old(self).active_fns()) ==> f.params@.len() == 0,
                    model_with_mismatched_let(*m, old(self).active_fns()) ==> k == 0,
                    forall|q: int| 0 <= q < j ==> self.param_type_known(#[trigger] f.params@[q].ty),
                decreases f.params.len() - j,
            {
                match &f.params[j].ty {
                    Type::Struct(name) => {
                        if self.find_struct(name.as_str()).is_none() {
                            return Err(cat(&vec!["undefined struct type: ", name.as_str()]));
                        }
                    },
                    Type::Enum(name) => {
                        if self.find_enum(name.as_str()).is_none() {
                            return Err(cat(&vec!["undefined enum type: ", name.as_str()]));
                        }
                    },
                    _ => {},
                }
                j += 1;
            }
            self.check_fn_def(f)?;
            k += 1;
        }
        self.current_self_type = None;
        self.in_model = false;
        Ok(())
    }

    /// Checks a model: it must define `forward`; each parameter type of its functions must
    /// resolve; then its functions are checked with `self` standing for the model's struct.
    #[verifier::loop_isolation(false)]
    pub fn check_model_def(&mut self, m: &ModelDef) -> (r: Result<(), String>)
        requires
            old(self).wf(),
        ensures
            TypeChecker::same_tables(*final(self), *old(self)),
            fn_index(m.functions@, "forward"@) is None ==> r is Err,
            !final(self).model_params_resolve(*m) ==> r is Err,
            r is Ok ==> TypeChecker::balanced(*final(self), *old(self)),
            r is Ok ==> !final(self).checking_model(),
            fn_index(m.functions@, "forward"@) is Some && plain_fns(m.functions@, old(self).active_fns()) ==> r is Ok,
            fn_index(m.functions@, "forward"@) is Some && old(self).model_params_resolve(*m) && m.functions@.len() > 0
                && fn_with_mismatched_let(Item::FnDef(m.functions@[0]), old(self).active_fns())
                ==> (r matches Err(e) && e@ == first_let_message(Item::FnDef(m.functions@[0]))),
    {
        self.ensure_has_forward(m)?;
        self.check_model_params(m)?;
        self.check_functions(m)
    }

    /// A model must have a `forward` function.
    fn ensure_has_forward(&self, m: &ModelDef) -> (r: Result<(), String>)
        ensures
            r is Ok <==> fn_index(m.functions@, "forward"@) is Some,
    {
        if find_fn_in(&m.functions, "forward").is_none() {
            let mut msg = String::new();
            push_str(&mut msg, "model '");
            push_str(&mut msg, m.name.as_str());
            push_str(&mut msg, "' must define a 'forward' function");
            return Err(msg);
        }
        Ok(())
    }

    /// Every parameter type of every function of the model must resolve.
    fn check_model_params(&self, m: &ModelDef) -> (r: Result<(), String>)
        ensures
            r is Ok <==> self.model_params_resolve(*m),
    {
        let mut k: usize = 0;
        while k < m.functions.len()
            invariant
                k <= m.functions@.len(),
                forall|i: int, j: int| 0 <= i < k && 0 <= j < m.functions@[i].params@.len()
                    ==> self.param_type_resolves(#[trigger] m.functions@[i].params@[j].ty),
            decreases m.functions.len() - k,
        {
            let f = &m.functions[k];
            let mut j: usize = 0;
            while j < f.params.len()
                invariant
                    j <= f.params@.len(),
                    k < m.functions@.len(),
                    f == m.functions@[k as int],
                    forall|q: int| 0 <= q < j ==> self.param_type_resolves(#[trigger] f.params@[q].ty),
                decreases f.params.len() - j,
            {
                let _ = self.resolve_type(&f.params[j].ty)?;
                j += 1;
            }
            k += 1;
        }
        Ok(())
    }

    /// Checks the model's functions as methods of the model, in the model context.
    fn check_functions(&mut self, m: &ModelDef) -> (r: Result<(), String>)
        requires
            old(self).wf(),
        ensures
            TypeChecker::same_tables(*final(self), *old(self)),
            r is Ok ==> TypeChecker::balanced(*final(self), *old(self)),
            r is Ok ==> !final(self).checking_model(),
            plain_fns(m.functions@, old(self).active_fns()) ==> r is Ok,
            m.functions@.len() > 0 && fn_with_mismatched_let(Item::FnDef(m.functions@[0]), old(self).active_fns())
                ==> (r matches Err(e) && e@ == first_let_message(Item::FnDef(m.functions@[0]))),
    {
        self.in_model = true;
        self.current_self_type = Some(Type::Struct(m.name.clone()));
        let mut k: usize = 0;
        while k < m.functions.len()
            invariant
                TypeChecker::same_tables(*self, *old(self)),
                TypeChecker::balanced(*self, *old(self)),
                k <= m.functions@.len(),
                m.functions@.len() > 0 && fn_with_mismatched_let(Item::FnDef(m.functions@[0]), old(self).active_fns()) ==> k == 0,
            decreases m.functions.len() - k,
        {
            self.check_fn_def(&m.functions[k])?;
            k += 1;
        }
        self.current_self_type = None;
        self.in_model = false;
        Ok(())
    }

    /// Checks one item of a program against the tables.
    fn check_item(&mut self, item: &Item) -> (r: Result<(), String>)
        requires
            old(self).wf(),
        ensures
            TypeChecker::same_tables(*final(self), *old(self)),
            r is Ok ==> TypeChecker::balanced(*final(self), *old(self)),
            r is Ok ==> (*item matches Item::ModelDef(m) ==> fn_index(m.functions@, "forward"@) is Some
                && final(self).model_params_known(m)),
            !(item is FnDef || item is ConstDef || item is ModelDef || item is Implement) ==> r is Ok,
            *item matches Item::FnDef(f) ==> (plain_fn(f) && !old(self).active_fns().contains(f.name@) ==> r is Ok),
            *item matches Item::ModelDef(m) ==> (fn_index(m.functions@, "forward"@) is Some
                && plain_fns(m.functions@, old(self).active_fns()) ==> r is Ok),
            *item matches Item::ModelDef(m) ==> (fn_index(m.functions@, "forward"@) is None
                ==> (r matches Err(e) && e@ == forward_missing(m.name@))),
            *item matches Item::FnDef(f) ==> (simple_fn(f) && !old(self).active_fns().contains(f.name@) ==> r is Ok),
            item_with_mismatched_let(*item, old(self).active_fns())
                ==> (r matches Err(m) && m@ == item_let_message(*item)),
    {
        match item {
            Item::FnDef(f) => self.check_fn_def(f),
            Item::ConstDef(c) => {
                let value_type = self.check_expr(&c.value)?;
                if !self.types_equal(&value_type, &c.ty) {
                    let e = type_debug(&c.ty);
                    let g = type_debug(&value_type);
                    return Err(cat(&vec!["const type mismatch: expected ", e.as_str(), ", got ", g.as_str()]));
                }
                Ok(())
            },
            Item::ModelDef(m) => self.check_model_item(m),
            Item::Implement(imp) => {
                self.current_self_type = Some(copy_type(&imp.target_type));
                let mut k: usize = 0;
                while k < imp.functions.len()
                    invariant
                        TypeChecker::same_tables(*self, *old(self)),
                        TypeChecker::balanced(*self, *old(self)),
                        k <= imp.functions@.len(),
                        item is Implement,
                        *item == Item::Implement(*imp),
                        item_with_mismatched_let(*item, old(self).active_fns()) ==> k == 0,
                    decreases imp.functions.len() - k,
                {
                    self.check_fn_def(&imp.functions[k])?;
                    k += 1;
                }
                self.current_self_type = None;
                Ok(())
            },
            _ => Ok(()),
        }
    }

    /// Checks a program: first every item is filed under its name (a later declaration of a
    /// name replaces an earlier one), then every function, constant, model and implement
    /// block is checked in order, and the checked program is lowered to HIR.
    pub fn check_program(&mut self, program: &Program) -> (r: Result<HirProgram, String>)
        requires
            old(self).wf(),
        ensures
            forall|j: int| 0 <= j < program.items@.len() ==> final(self).declared(#[trigger] program.items@[j]),
            r is Ok ==> TypeChecker::balanced(*final(self), *old(self)),
            r is Ok ==> forall|j: int| 0 <= j < program.items@.len()
                ==> (#[trigger] program.items@[j] matches Item::ModelDef(m)
                    ==> fn_index(m.functions@, "forward"@) is Some && final(self).model_params_known(m)),
            r matches Ok(p) ==> built_program(p, program.items@, final(self).recorded_types()),
            (forall|j: int| 0 <= j < program.items@.len() ==> simple_item(#[trigger] program.items@[j], old(self).active_fns()))
                ==> r is Ok,
            forall|k: int| 0 <= k < program.items@.len() && (forall|j: int| 0 <= j < k
                    ==> simple_item(#[trigger] program.items@[j], old(self).active_fns()))
                ==> (#[trigger] program.items@[k] matches Item::ModelDef(m) ==> (fn_index(m.functions@, "forward"@) is None
                    ==> (r matches Err(e) && e@ == forward_missing(m.name@)))),
            forall|k: int| 0 <= k < program.items@.len() && (forall|j: int| 0 <= j < k
                    ==> simple_item(#[trigger] program.items@[j], old(self).active_fns()))
                ==> (item_with_mismatched_let(#[trigger] program.items@[k], old(self).active_fns())
                    ==> (r matches Err(e) && e@ == item_let_message(program.items@[k]))),
    {
        let mut k: usize = 0;
        while k < program.items.len()
            invariant
                self.wf(),
                TypeChecker::grown(*self, *old(self)),
                k <= program.items@.len(),
                forall|j: int| 0 <= j < k ==> self.declared(#[trigger] program.items@[j]),
            decreases program.items.len() - k,
        {
            let ghost before = *self;
            self.collect_item(&program.items[k]);
            proof {
                assert forall|j: int| 0 <= j < k + 1 implies self.declared(#[trigger] program.items@[j]) by {
                    if j < k {
                        TypeChecker::lemma_declared_grown(*self, before, program.items@[j]);
                    }
                }
            }
            k += 1;
        }
        let ghost collected = *self;
        let mut k: usize = 0;
        while k < program.items.len()
            invariant
                TypeChecker::same_tables(*self, collected),
                TypeChecker::balanced(*self, *old(self)),
                k <= program.items@.len(),
                forall|j: int| 0 <= j < program.items@.len() ==> collected.declared(#[trigger] program.items@[j]),
                forall|j: int| 0 <= j < k ==> (#[trigger] program.items@[j] matches Item::ModelDef(m)
                    ==> fn_index(m.functions@, "forward"@) is Some && self.model_params_known(m)),
                forall|j: int| 0 <= j < k ==> !item_with_mismatched_let(#[trigger] program.items@[j], old(self).active_fns()),
            decreases program.items.len() - k,
        {
            self.check_item(&program.items[k])?;
            k += 1;
        }
        HirBuilder::build(program, &self.expr_types)
    }
}

} // verus!
