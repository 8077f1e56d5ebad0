//! Properties of the checker's type relations and of the join of privacy tags.
use vstd::prelude::*;
use crate::ast::{Type, PrivacyTag, shape_dim_same, type_same, privacy_tag_same, opt_text_same};
use crate::sema::{types_eq, types_eq_privacy, tags_eq, joined_tag, stripped, privacy_of, substituted, TypeChecker};
use crate::ast::{BinaryOp, LetStmt, StructDef, EnumDef, FnDef, EnumVariant, StructField, Attribute, AttributeArg, CallArg};
use crate::sema::{binop_ok, binop_base, is_numeric, pair_index, last_field_index, struct_index, enum_index, fn_index, variant_index, field_index, attr_index, key_index, named_arg_index};
use crate::parser::primitive_type_of;
use crate::show::type_text;
use crate::token::{Token, token_name_text};
use crate::rational::{rational_le_spec, rational_eq_spec, rational_or_zero, lemma_rational_denominator_positive};

verus! {

broadcast use vstd::std_specs::vec::axiom_vec_index_decreases;

/// A type with no `Self` and no symbolic integer type anywhere in it.
pub open spec fn fixed_type(t: Type) -> bool
    decreases t,
{
    match t {
        Type::SelfType => false,
        Type::SymInt => false,
        Type::Generic(_, args) => forall|k: int| 0 <= k < args@.len() ==> fixed_type(#[trigger] args@[k]),
        Type::Tensor { dtype, .. } => fixed_type(*dtype),
        Type::Privacy(inner, _) => fixed_type(*inner),
        Type::Ref { inner, .. } => fixed_type(*inner),
        Type::Slice(inner) => fixed_type(*inner),
        _ => true,
    }
}

/// Type equality does not depend on the order of its arguments.
pub proof fn lemma_types_eq_symmetric(a: Type, b: Type)
    ensures
        types_eq(a, b) == types_eq(b, a),
    decreases a, b,
{
    match (a, b) {
        (Type::Generic(_, a1), Type::Generic(_, a2)) => {
            if a1@.len() == a2@.len() {
                assert forall|k: int| 0 <= k < a1@.len() implies types_eq(#[trigger] a1@[k], a2@[k]) == types_eq(a2@[k], a1@[k]) by {
                    assert(decreases_to!(a1 => a1[k]));
                    lemma_types_eq_symmetric(a1@[k], a2@[k]);
                }
            }
        },
        (Type::Ref { inner: i1, .. }, Type::Ref { inner: i2, .. }) => {
            lemma_types_eq_symmetric(*i1, *i2);
        },
        (Type::Slice(t1), Type::Slice(t2)) => {
            lemma_types_eq_symmetric(*t1, *t2);
        },
        (Type::Tensor { dtype: d1, shape: s1 }, Type::Tensor { dtype: d2, shape: s2 }) => {
            lemma_types_eq_symmetric(*d1, *d2);
            if s1@.len() == s2@.len() {
                assert forall|k: int| 0 <= k < s1@.len() implies shape_dim_same(#[trigger] s1@[k], s2@[k]) == shape_dim_same(s2@[k], s1@[k]) by {
                }
            }
        },
        (Type::Privacy(i1, _), Type::Privacy(i2, _)) => {
            lemma_types_eq_symmetric(*i1, *i2);
        },
        (Type::Privacy(i, _), _) => {
            lemma_types_eq_symmetric(*i, b);
        },
        (_, Type::Privacy(i, _)) => {
            lemma_types_eq_symmetric(a, *i);
        },
        _ => {},
    }
}

/// Every type without `Self` or a symbolic integer type is equal to itself.
pub proof fn lemma_types_eq_reflexive(t: Type)
    requires
        fixed_type(t),
    ensures
        types_eq(t, t),
    decreases t,
{
    match t {
        Type::Generic(_, args) => {
            assert forall|k: int| 0 <= k < args@.len() implies types_eq(#[trigger] args@[k], args@[k]) by {
                assert(decreases_to!(args => args[k]));
                lemma_types_eq_reflexive(args@[k]);
            }
        },
        Type::Tensor { dtype, shape } => {
            lemma_types_eq_reflexive(*dtype);
            assert forall|k: int| 0 <= k < shape@.len() implies shape_dim_same(#[trigger] shape@[k], shape@[k]) by {
            }
        },
        Type::Privacy(inner, _) => {
            lemma_types_eq_reflexive(*inner);
        },
        Type::Ref { inner, .. } => {
            lemma_types_eq_reflexive(*inner);
        },
        Type::Slice(inner) => {
            lemma_types_eq_reflexive(*inner);
        },
        _ => {},
    }
}

/// Privacy tags are compared the same way in both orders.
pub proof fn lemma_tags_eq_symmetric(a: PrivacyTag, b: PrivacyTag)
    ensures
        tags_eq(a, b) == tags_eq(b, a),
{
}

/// Type equality with privacy tags does not depend on the order of its arguments.
pub proof fn lemma_types_eq_privacy_symmetric(a: Type, b: Type)
    ensures
        types_eq_privacy(a, b) == types_eq_privacy(b, a),
{
    match (a, b) {
        (Type::Privacy(i1, t1), Type::Privacy(i2, t2)) => {
            lemma_types_eq_symmetric(*i1, *i2);
            lemma_tags_eq_symmetric(t1, t2);
        },
        (Type::Privacy(i, _), _) => {
            lemma_types_eq_symmetric(*i, b);
        },
        (_, Type::Privacy(i, _)) => {
            lemma_types_eq_symmetric(a, *i);
        },
        _ => {
            lemma_types_eq_symmetric(a, b);
        },
    }
}

/// Stripping privacy tags leaves no tag, and stripping twice is stripping once.
pub proof fn lemma_stripped_idempotent(t: Type)
    ensures
        privacy_of(stripped(t)) is None,
        stripped(stripped(t)) == stripped(t),
    decreases t,
{
    match t {
        Type::Privacy(inner, _) => {
            lemma_stripped_idempotent(*inner);
        },
        Type::Ref { inner, .. } => {
            lemma_stripped_idempotent(*inner);
        },
        _ => {},
    }
}

/// Substituting with no bindings gives a copy of the type.
pub proof fn lemma_substituted_nothing(r: Type, t: Type)
    requires
        substituted(r, t, Seq::empty()),
    ensures
        type_same(r, t),
    decreases t,
{
    match t {
        Type::Ref { inner, .. } => {
            lemma_substituted_nothing(*r->inner, *inner);
        },
        Type::Slice(inner) => {
            lemma_substituted_nothing(*r->Slice_0, *inner);
        },
        Type::Privacy(inner, _) => {
            lemma_substituted_nothing(*r->Privacy_0, *inner);
        },
        Type::Generic(_, args) => {
            let a2 = r->Generic_1;
            assert forall|k: int| 0 <= k < args@.len() implies type_same(#[trigger] a2@[k], args@[k]) by {
                assert(decreases_to!(args => args[k]));
                lemma_substituted_nothing(a2@[k], args@[k]);
            }
        },
        Type::Tensor { dtype, .. } => {
            lemma_substituted_nothing(*r->dtype, *dtype);
        },
        _ => {},
    }
}

/// The budgets of a tag can be compared with themselves without leaving `i128`.
pub open spec fn tag_in_range(t: PrivacyTag) -> bool {
    match t {
        PrivacyTag::Differential { eps, delta } => rational_eq_spec(eps@, eps@) && match delta {
            Some(d) => rational_eq_spec(d@, d@),
            None => true,
        },
        _ => true,
    }
}

/// Two tags whose budgets can be ordered against each other without leaving `i128`.
pub open spec fn budgets_comparable(a: PrivacyTag, b: PrivacyTag) -> bool {
    match (a, b) {
        (PrivacyTag::Differential { eps: e1, delta: d1 }, PrivacyTag::Differential { eps: e2, delta: d2 }) => {
            &&& (rational_le_spec(e1@, e2@) || rational_le_spec(e2@, e1@))
            &&& match (d1, d2) {
                (Some(x), Some(y)) => rational_le_spec(x@, y@) || rational_le_spec(y@, x@),
                _ => true,
            }
        },
        _ => true,
    }
}

proof fn lemma_tags_eq_same(a: PrivacyTag, b: PrivacyTag, c: PrivacyTag)
    requires
        tag_in_range(c),
        privacy_tag_same(a, c),
        privacy_tag_same(b, c),
    ensures
        tags_eq(a, b),
{
}

/// `public` gives way to the other tag in a join, on either side.
pub proof fn lemma_join_public_identity(x: PrivacyTag, r: PrivacyTag)
    ensures
        joined_tag(PrivacyTag::Public, x, r) ==> privacy_tag_same(r, x),
        joined_tag(x, PrivacyTag::Public, r) ==> privacy_tag_same(r, x),
{
}

/// `private` wins a join, on either side.
pub proof fn lemma_join_private_absorbs(x: PrivacyTag, r: PrivacyTag)
    ensures
        joined_tag(PrivacyTag::Private, x, r) ==> r is Private,
        joined_tag(x, PrivacyTag::Private, r) ==> r is Private,
{
}

/// Joining a tag with itself gives a tag equal to it.
pub proof fn lemma_join_idempotent(a: PrivacyTag, r: PrivacyTag)
    requires
        tag_in_range(a),
        joined_tag(a, a, r),
    ensures
        tags_eq(r, a),
{
    if let PrivacyTag::Differential { eps, delta } = a {
        let eps_r = r->eps;
        assert(eps_r@ == eps@);
        match delta {
            Some(d) => {
                assert(r->delta->Some_0@ == d@);
            },
            None => {},
        }
    }
}

/// The join of two tags does not depend on their order, up to equal budgets.
pub proof fn lemma_join_commutative(a: PrivacyTag, b: PrivacyTag, r1: PrivacyTag, r2: PrivacyTag)
    requires
        tag_in_range(a),
        tag_in_range(b),
        budgets_comparable(a, b),
        joined_tag(a, b, r1),
        joined_tag(b, a, r2),
    ensures
        tags_eq(r1, r2),
{
    match (a, b) {
        (PrivacyTag::Public, _) => {
            lemma_tags_eq_same(r1, r2, b);
        },
        (_, PrivacyTag::Public) => {
            lemma_tags_eq_same(r1, r2, a);
        },
        (PrivacyTag::Private, _) => {},
        (_, PrivacyTag::Private) => {},
        (PrivacyTag::Differential { eps: e1, delta: d1 }, PrivacyTag::Differential { eps: e2, delta: d2 }) => {
            let x1 = r1->eps;
            let x2 = r2->eps;
            assert(rational_eq_spec(x1@, x2@));
            match (d1, d2) {
                (Some(p), Some(q)) => {
                    assert(rational_eq_spec(r1->delta->Some_0@, r2->delta->Some_0@));
                },
                _ => {},
            }
        },
    }
}

/// Joining two differential-privacy budgets keeps the tighter guarantee of each part: the
/// `eps` is the smaller input `eps` (no larger than either), and the `delta` is the larger
/// input `delta` (no smaller than any input's, and present where either input has one).
pub proof fn lemma_join_bounds(a: PrivacyTag, b: PrivacyTag, r: PrivacyTag)
    requires
        tag_in_range(a),
        tag_in_range(b),
        budgets_comparable(a, b),
        a is Differential,
        b is Differential,
        joined_tag(a, b, r),
    ensures
        r is Differential,
        rational_le_spec(r->eps@, a->eps@),
        rational_le_spec(r->eps@, b->eps@),
        r->eps@ == a->eps@ || r->eps@ == b->eps@,
        a->delta matches Some(x) ==> (r->delta matches Some(d) && rational_le_spec(x@, d@)),
        b->delta matches Some(y) ==> (r->delta matches Some(d) && rational_le_spec(y@, d@)),
        r->delta matches Some(d) ==> ((a->delta matches Some(x) && x@ == d@) || (b->delta matches Some(y) && y@ == d@)),
        a->delta is None && b->delta is None ==> r->delta is None,
{
    let e1 = a->eps@;
    let e2 = b->eps@;
    let e = r->eps@;
    assert(rational_le_spec(e1, e1) && rational_le_spec(e2, e2));
    if rational_le_spec(e1, e2) {
        assert(e == e1);
    } else {
        assert(e == e2);
        assert(rational_le_spec(e2, e1));
    }
    match (a->delta, b->delta) {
        (Some(x), Some(y)) => {
            let d = r->delta->Some_0@;
            assert(rational_le_spec(x@, x@) && rational_le_spec(y@, y@));
            if rational_le_spec(x@, y@) {
                assert(d == y@);
            } else {
                assert(d == x@);
                assert(rational_le_spec(y@, x@));
            }
        },
        (Some(x), None) => {
            assert(rational_le_spec(x@, x@));
        },
        (None, Some(y)) => {
            assert(rational_le_spec(y@, y@));
        },
        (None, None) => {},
    }
}

/// Budgets compare transitively: `a <= b` and `b <= c` give `a <= c`, where `a` and `c` can
/// be compared at all.
pub proof fn lemma_rational_le_transitive(a: Seq<char>, b: Seq<char>, c: Seq<char>)
    requires
        rational_le_spec(a, b),
        rational_le_spec(b, c),
        rational_le_spec(a, c) || rational_le_spec(c, a),
    ensures
        rational_le_spec(a, c),
{
    lemma_rational_denominator_positive(a);
    lemma_rational_denominator_positive(b);
    lemma_rational_denominator_positive(c);
    let (na, da) = rational_or_zero(a);
    let (nb, db) = rational_or_zero(b);
    let (nc, dc) = rational_or_zero(c);
    assert(na * dc <= nc * da) by (nonlinear_arith)
        requires
            na * db <= nb * da,
            nb * dc <= nc * db,
            da > 0,
            db > 0,
            dc > 0,
    {
        assert(na * db * dc <= nb * da * dc);
        assert(nb * dc * da <= nc * db * da);
        assert((na * dc) * db <= (nc * da) * db);
    }
}

/// The cross products of two budgets fit `i128`, and so do their denominators.
pub open spec fn rational_fits(a: Seq<char>, b: Seq<char>) -> bool {
    let (na, da) = rational_or_zero(a);
    let (nb, db) = rational_or_zero(b);
    da <= i128::MAX && db <= i128::MAX && i128::MIN <= na * db <= i128::MAX && i128::MIN <= nb * da <= i128::MAX
}

/// Two budgets whose cross products fit are ordered one way or the other.
pub proof fn lemma_rational_le_total(a: Seq<char>, b: Seq<char>)
    requires
        rational_fits(a, b),
    ensures
        rational_le_spec(a, b) || rational_le_spec(b, a),
{
}

/// Budgets ordered both ways are equal.
pub proof fn lemma_rational_le_antisymmetric(a: Seq<char>, b: Seq<char>)
    requires
        rational_le_spec(a, b),
        rational_le_spec(b, a),
    ensures
        rational_eq_spec(a, b),
{
}

/// A primitive type keyword reads as the type of the same name: the token and the type it
/// stands for print the same `{:?}` name.
pub proof fn lemma_primitive_type_named_alike(t: Token)
    ensures
        primitive_type_of(t) matches Some(ty) ==> type_text(ty) == token_name_text(t),
{
}

/// Two types with the same structure and names, taken the other way round, still are.
pub proof fn lemma_type_same_symmetric(a: Type, b: Type)
    requires
        type_same(a, b),
    ensures
        type_same(b, a),
    decreases a,
{
    match (a, b) {
        (Type::Generic(_, x), Type::Generic(_, y)) => {
            assert forall|k: int| 0 <= k < y@.len() implies type_same(#[trigger] y@[k], x@[k]) by {
                assert(decreases_to!(x => x[k]));
                lemma_type_same_symmetric(x@[k], y@[k]);
            }
        },
        (Type::Tensor { dtype: x, shape: s1 }, Type::Tensor { dtype: y, shape: s2 }) => {
            lemma_type_same_symmetric(*x, *y);
            assert forall|k: int| 0 <= k < s2@.len() implies shape_dim_same(#[trigger] s2@[k], s1@[k]) by {
                assert(shape_dim_same(s1@[k], s2@[k]));
            }
        },
        (Type::Privacy(x, _), Type::Privacy(y, _)) => {
            lemma_type_same_symmetric(*x, *y);
        },
        (Type::Ref { inner: x, .. }, Type::Ref { inner: y, .. }) => {
            lemma_type_same_symmetric(*x, *y);
        },
        (Type::Slice(x), Type::Slice(y)) => {
            lemma_type_same_symmetric(*x, *y);
        },
        _ => {},
    }
}

/// Copies of types are copies of each other: `type_same` is transitive.
pub proof fn lemma_type_same_transitive(a: Type, b: Type, c: Type)
    requires
        type_same(a, b),
        type_same(b, c),
    ensures
        type_same(a, c),
    decreases a,
{
    match (a, b, c) {
        (Type::Generic(_, x), Type::Generic(_, y), Type::Generic(_, z)) => {
            assert forall|k: int| 0 <= k < x@.len() implies type_same(#[trigger] x@[k], z@[k]) by {
                assert(decreases_to!(x => x[k]));
                lemma_type_same_transitive(x@[k], y@[k], z@[k]);
            }
        },
        (Type::Tensor { dtype: x, .. }, Type::Tensor { dtype: y, .. }, Type::Tensor { dtype: z, .. }) => {
            lemma_type_same_transitive(*x, *y, *z);
        },
        (Type::Privacy(x, _), Type::Privacy(y, _), Type::Privacy(z, _)) => {
            lemma_type_same_transitive(*x, *y, *z);
        },
        (Type::Ref { inner: x, .. }, Type::Ref { inner: y, .. }, Type::Ref { inner: z, .. }) => {
            lemma_type_same_transitive(*x, *y, *z);
        },
        (Type::Slice(x), Type::Slice(y), Type::Slice(z)) => {
            lemma_type_same_transitive(*x, *y, *z);
        },
        _ => {},
    }
}

/// What a `let` writes is read back: where a variable is bound at the type written in an
/// accepted `let` (a type that is neither a struct nor an enum name, as
/// [`TypeChecker::check_stmt`] then ensures), checking the variable's name afterwards gives
/// that type, unless the name is `self` inside a method.
pub proof fn lemma_let_binding_read_back(s: TypeChecker, l: LetStmt, t: Type, r: Result<Type, String>)
    requires
        l.ty matches Some(a) && type_same(t, a),
        s.var_type(l.name@) == Some(t),
        !(l.name@ == "self"@ && s.self_type() is Some),
        s.name_result(l.name@, r),
    ensures
        r matches Ok(u) && type_same(u, l.ty->0),
{
    let u = r->Ok_0;
    lemma_type_same_transitive(u, t, l.ty->0);
}

/// [`struct_index`] finds the first struct of that name, and finds nothing where no
/// struct is so named.
pub proof fn lemma_struct_index_first(s: Seq<StructDef>, name: Seq<char>)
    ensures
        match struct_index(s, name) {
            Some(i) => 0 <= i < s.len() && s[i].name@ == name
                && forall|k: int| 0 <= k < i ==> (#[trigger] s[k]).name@ != name,
            None => forall|k: int| 0 <= k < s.len() ==> (#[trigger] s[k]).name@ != name,
        },
    decreases s.len(),
{
    if s.len() > 0 {
        lemma_struct_index_first(s.drop_last(), name);
        assert forall|k: int| 0 <= k < s.len() - 1 implies #[trigger] s[k] == s.drop_last()[k] by {}
    }
}

/// [`enum_index`] finds the first enum of that name, and finds nothing where no
/// enum is so named.
pub proof fn lemma_enum_index_first(s: Seq<EnumDef>, name: Seq<char>)
    ensures
        match enum_index(s, name) {
            Some(i) => 0 <= i < s.len() && s[i].name@ == name
                && forall|k: int| 0 <= k < i ==> (#[trigger] s[k]).name@ != name,
            None => forall|k: int| 0 <= k < s.len() ==> (#[trigger] s[k]).name@ != name,
        },
    decreases s.len(),
{
    if s.len() > 0 {
        lemma_enum_index_first(s.drop_last(), name);
        assert forall|k: int| 0 <= k < s.len() - 1 implies #[trigger] s[k] == s.drop_last()[k] by {}
    }
}

/// [`fn_index`] finds the first function of that name, and finds nothing where no
/// function is so named.
pub proof fn lemma_fn_index_first(s: Seq<FnDef>, name: Seq<char>)
    ensures
        match fn_index(s, name) {
            Some(i) => 0 <= i < s.len() && s[i].name@ == name
                && forall|k: int| 0 <= k < i ==> (#[trigger] s[k]).name@ != name,
            None => forall|k: int| 0 <= k < s.len() ==> (#[trigger] s[k]).name@ != name,
        },
    decreases s.len(),
{
    if s.len() > 0 {
        lemma_fn_index_first(s.drop_last(), name);
        assert forall|k: int| 0 <= k < s.len() - 1 implies #[trigger] s[k] == s.drop_last()[k] by {}
    }
}

/// [`variant_index`] finds the first variant of that name, and finds nothing where no
/// variant is so named.
pub proof fn lemma_variant_index_first(s: Seq<EnumVariant>, name: Seq<char>)
    ensures
        match variant_index(s, name) {
            Some(i) => 0 <= i < s.len() && s[i].name@ == name
                && forall|k: int| 0 <= k < i ==> (#[trigger] s[k]).name@ != name,
            None => forall|k: int| 0 <= k < s.len() ==> (#[trigger] s[k]).name@ != name,
        },
    decreases s.len(),
{
    if s.len() > 0 {
        lemma_variant_index_first(s.drop_last(), name);
        assert forall|k: int| 0 <= k < s.len() - 1 implies #[trigger] s[k] == s.drop_last()[k] by {}
    }
}

/// [`field_index`] finds the first field of that name, and finds nothing where no
/// field is so named.
pub proof fn lemma_field_index_first(s: Seq<StructField>, name: Seq<char>)
    ensures
        match field_index(s, name) {
            Some(i) => 0 <= i < s.len() && s[i].name@ == name
                && forall|k: int| 0 <= k < i ==> (#[trigger] s[k]).name@ != name,
            None => forall|k: int| 0 <= k < s.len() ==> (#[trigger] s[k]).name@ != name,
        },
    decreases s.len(),
{
    if s.len() > 0 {
        lemma_field_index_first(s.drop_last(), name);
        assert forall|k: int| 0 <= k < s.len() - 1 implies #[trigger] s[k] == s.drop_last()[k] by {}
    }
}

/// [`attr_index`] finds the first attribute of that name, and finds nothing where no
/// attribute is so named.
pub proof fn lemma_attr_index_first(s: Seq<Attribute>, name: Seq<char>)
    ensures
        match attr_index(s, name) {
            Some(i) => 0 <= i < s.len() && s[i].name@ == name
                && forall|k: int| 0 <= k < i ==> (#[trigger] s[k]).name@ != name,
            None => forall|k: int| 0 <= k < s.len() ==> (#[trigger] s[k]).name@ != name,
        },
    decreases s.len(),
{
    if s.len() > 0 {
        lemma_attr_index_first(s.drop_last(), name);
        assert forall|k: int| 0 <= k < s.len() - 1 implies #[trigger] s[k] == s.drop_last()[k] by {}
    }
}

/// [`key_index`] finds the first `key = value` argument with that key, and finds nothing where no
/// argument is with that key.
pub proof fn lemma_key_index_first(s: Seq<AttributeArg>, key: Seq<char>)
    ensures
        match key_index(s, key) {
            Some(i) => 0 <= i < s.len() && (s[i] matches AttributeArg::KeyValue(k2, _) && k2@ == key)
                && forall|k: int| 0 <= k < i ==> !((#[trigger] s[k]) matches AttributeArg::KeyValue(k2, _) && k2@ == key),
            None => forall|k: int| 0 <= k < s.len() ==> !((#[trigger] s[k]) matches AttributeArg::KeyValue(k2, _) && k2@ == key),
        },
    decreases s.len(),
{
    if s.len() > 0 {
        lemma_key_index_first(s.drop_last(), key);
        assert forall|k: int| 0 <= k < s.len() - 1 implies #[trigger] s[k] == s.drop_last()[k] by {}
    }
}

/// [`named_arg_index`] finds the first named argument of that name, and finds nothing where no
/// argument is so named.
pub proof fn lemma_named_arg_index_first(s: Seq<CallArg>, name: Seq<char>)
    ensures
        match named_arg_index(s, name) {
            Some(i) => 0 <= i < s.len() && (s[i] matches CallArg::Named(n, _) && n@ == name)
                && forall|k: int| 0 <= k < i ==> !((#[trigger] s[k]) matches CallArg::Named(n, _) && n@ == name),
            None => forall|k: int| 0 <= k < s.len() ==> !((#[trigger] s[k]) matches CallArg::Named(n, _) && n@ == name),
        },
    decreases s.len(),
{
    if s.len() > 0 {
        lemma_named_arg_index_first(s.drop_last(), name);
        assert forall|k: int| 0 <= k < s.len() - 1 implies #[trigger] s[k] == s.drop_last()[k] by {}
    }
}

/// [`pair_index`] finds the first pair of that name, and finds nothing where no pair is so
/// named.
pub proof fn lemma_pair_index_first<V>(s: Seq<(String, V)>, name: Seq<char>)
    ensures
        match pair_index(s, name) {
            Some(i) => 0 <= i < s.len() && s[i].0@ == name
                && forall|k: int| 0 <= k < i ==> (#[trigger] s[k]).0@ != name,
            None => forall|k: int| 0 <= k < s.len() ==> (#[trigger] s[k]).0@ != name,
        },
    decreases s.len(),
{
    if s.len() > 0 {
        lemma_pair_index_first(s.drop_last(), name);
        assert forall|k: int| 0 <= k < s.len() - 1 implies #[trigger] s[k] == s.drop_last()[k] by {}
    }
}

/// [`last_field_index`] finds the last field of that name, and finds nothing where no field
/// is so named.
pub proof fn lemma_last_field_index_last(s: Seq<StructField>, name: Seq<char>)
    ensures
        match last_field_index(s, name) {
            Some(i) => 0 <= i < s.len() && s[i].name@ == name
                && forall|k: int| i < k < s.len() ==> (#[trigger] s[k]).name@ != name,
            None => forall|k: int| 0 <= k < s.len() ==> (#[trigger] s[k]).name@ != name,
        },
    decreases s.len(),
{
    if s.len() > 0 {
        lemma_last_field_index_last(s.drop_last(), name);
        assert forall|k: int| 0 <= k < s.len() - 1 implies #[trigger] s[k] == s.drop_last()[k] by {}
    }
}

/// In arithmetic on numbers, an integer literal gives way to the other operand: an accepted
/// `literal op x` has the number type of `x`.
pub proof fn lemma_literal_takes_other_type(op: BinaryOp, left: Type, right: Type)
    requires
        op is Add || op is Sub || op is Mul || op is Div || op is Mod,
        is_numeric(stripped(right)),
        binop_ok(op, left, right, true, false),
    ensures
        types_eq(binop_base(op, left, right, true), stripped(right)),
{
}

/// The type of an accepted binary operation does not depend on the order of its operands
/// (where not both are literals).
pub proof fn lemma_binop_base_symmetric(op: BinaryOp, left: Type, right: Type, left_lit: bool, right_lit: bool)
    requires
        binop_ok(op, left, right, left_lit, right_lit),
        !(left_lit && right_lit),
    ensures
        types_eq(binop_base(op, left, right, left_lit), binop_base(op, right, left, right_lit)),
{
    lemma_types_eq_symmetric(stripped(left), stripped(right));
}

} // verus!
