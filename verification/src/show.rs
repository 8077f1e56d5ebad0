//! The `{:?}` text of types, written out: the text that `derive(Debug)` gives a `Type`.

use vstd::prelude::*;
use crate::ast::{Type, ShapeDim, PrivacyTag};
use crate::text::{push_str, push_decimal, decimal_text, push_i64_decimal, signed_decimal_text, string_debug,
    string_debug_text};

verus! {

/// `parts` joined by `", "`.
pub open spec fn joined(parts: Seq<Seq<char>>) -> Seq<char>
    decreases parts.len(),
{
    if parts.len() == 0 {
        Seq::empty()
    } else if parts.len() == 1 {
        parts[0]
    } else {
        joined(parts.drop_last()) + ", "@ + parts.last()
    }
}

/// `Some("text")` or `None`.
pub open spec fn opt_string_text(o: Option<String>) -> Seq<char> {
    match o {
        Some(s) => "Some("@ + string_debug_text(s@) + ")"@,
        None => "None"@,
    }
}

/// The `{:?}` text of a privacy tag.
pub open spec fn tag_text(t: PrivacyTag) -> Seq<char> {
    match t {
        PrivacyTag::Public => "Public"@,
        PrivacyTag::Private => "Private"@,
        PrivacyTag::Differential { eps, delta } => "Differential { eps: "@ + string_debug_text(eps@)
            + ", delta: "@ + opt_string_text(delta) + " }"@,
    }
}

/// The `{:?}` text of a shape dimension.
pub open spec fn dim_text(d: ShapeDim) -> Seq<char> {
    match d {
        ShapeDim::Const(n) => "Const("@ + decimal_text(n as nat) + ")"@,
        ShapeDim::Sym(s) => "Sym("@ + string_debug_text(s@) + ")"@,
        ShapeDim::Dyn => "Dyn"@,
    }
}

/// The `{:?}` texts of types, joined by `", "`.
pub open spec fn types_text(ts: Seq<Type>) -> Seq<char>
    decreases ts,
{
    if ts.len() == 0 {
        Seq::empty()
    } else if ts.len() == 1 {
        type_text(ts[0])
    } else {
        types_text(ts.drop_last()) + ", "@ + type_text(ts.last())
    }
}

/// The `{:?}` text of a type.
pub open spec fn type_text(t: Type) -> Seq<char>
    decreases t,
{
    match t {
        Type::I8 => "I8"@,
        Type::I16 => "I16"@,
        Type::I32 => "I32"@,
        Type::I64 => "I64"@,
        Type::I128 => "I128"@,
        Type::U8 => "U8"@,
        Type::U16 => "U16"@,
        Type::U32 => "U32"@,
        Type::U64 => "U64"@,
        Type::U128 => "U128"@,
        Type::F16 => "F16"@,
        Type::F32 => "F32"@,
        Type::F64 => "F64"@,
        Type::SymInt => "SymInt"@,
        Type::Bool => "Bool"@,
        Type::Char => "Char"@,
        Type::Str => "Str"@,
        Type::Struct(n) => "Struct("@ + string_debug_text(n@) + ")"@,
        Type::Enum(n) => "Enum("@ + string_debug_text(n@) + ")"@,
        Type::TypeParam(n) => "TypeParam("@ + string_debug_text(n@) + ")"@,
        Type::Generic(n, args) => "Generic("@ + string_debug_text(n@) + ", ["@ + types_text(args@) + "])"@,
        Type::Tensor { dtype, shape } => "Tensor { dtype: "@ + type_text(*dtype) + ", shape: ["@
            + joined(shape@.map_values(|d: ShapeDim| dim_text(d))) + "] }"@,
        Type::Privacy(inner, tag) => "Privacy("@ + type_text(*inner) + ", "@ + tag_text(tag) + ")"@,
        Type::SelfType => "SelfType"@,
        Type::ConstIntArray(v) => "ConstIntArray(["@
            + joined(v@.map_values(|x: i64| signed_decimal_text(x as int))) + "])"@,
        Type::Ref { mutable, inner } => "Ref { mutable: "@ + (if mutable { "true"@ } else { "false"@ })
            + ", inner: "@ + type_text(*inner) + " }"@,
        Type::Slice(inner) => "Slice("@ + type_text(*inner) + ")"@,
        Type::Unit => "Unit"@,
    }
}

proof fn lemma_joined_step(parts: Seq<Seq<char>>, k: int)
    requires
        0 <= k < parts.len(),
    ensures
        joined(parts.take(k + 1)) == if k == 0 { parts[0] } else { joined(parts.take(k)) + ", "@ + parts[k] },
{
    assert(parts.take(k + 1).drop_last() =~= parts.take(k));
}

fn push_tag(out: &mut String, t: &PrivacyTag)
    ensures
        final(out)@ == old(out)@ + tag_text(*t),
{
    match t {
        PrivacyTag::Public => push_str(out, "Public"),
        PrivacyTag::Private => push_str(out, "Private"),
        PrivacyTag::Differential { eps, delta } => {
            push_str(out, "Differential { eps: ");
            let e = string_debug(eps);
            push_str(out, e.as_str());
            push_str(out, ", delta: ");
            match delta {
                Some(d) => {
                    push_str(out, "Some(");
                    let x = string_debug(d);
                    push_str(out, x.as_str());
                    push_str(out, ")");
                },
                None => push_str(out, "None"),
            }
            push_str(out, " }");
        },
    }
}

fn push_dim(out: &mut String, d: &ShapeDim)
    ensures
        final(out)@ == old(out)@ + dim_text(*d),
{
    match d {
        ShapeDim::Const(n) => {
            push_str(out, "Const(");
            push_decimal(out, *n);
            push_str(out, ")");
        },
        ShapeDim::Sym(s) => {
            push_str(out, "Sym(");
            let x = string_debug(s);
            push_str(out, x.as_str());
            push_str(out, ")");
        },
        ShapeDim::Dyn => push_str(out, "Dyn"),
    }
}

/// Appends the `{:?}` text of a type.
#[verifier::loop_isolation(false)]
pub fn push_type(out: &mut String, t: &Type)
    ensures
        final(out)@ == old(out)@ + type_text(*t),
    decreases t,
{
    match t {
        Type::I8 => push_str(out, "I8"),
        Type::I16 => push_str(out, "I16"),
        Type::I32 => push_str(out, "I32"),
        Type::I64 => push_str(out, "I64"),
        Type::I128 => push_str(out, "I128"),
        Type::U8 => push_str(out, "U8"),
        Type::U16 => push_str(out, "U16"),
        Type::U32 => push_str(out, "U32"),
        Type::U64 => push_str(out, "U64"),
        Type::U128 => push_str(out, "U128"),
        Type::F16 => push_str(out, "F16"),
        Type::F32 => push_str(out, "F32"),
        Type::F64 => push_str(out, "F64"),
        Type::SymInt => push_str(out, "SymInt"),
        Type::Bool => push_str(out, "Bool"),
        Type::Char => push_str(out, "Char"),
        Type::Str => push_str(out, "Str"),
        Type::Struct(n) => {
            push_str(out, "Struct(");
            let x = string_debug(n);
            push_str(out, x.as_str());
            push_str(out, ")");
        },
        Type::Enum(n) => {
            push_str(out, "Enum(");
            let x = string_debug(n);
            push_str(out, x.as_str());
            push_str(out, ")");
        },
        Type::TypeParam(n) => {
            push_str(out, "TypeParam(");
            let x = string_debug(n);
            push_str(out, x.as_str());
            push_str(out, ")");
        },
        Type::Generic(n, args) => {
            push_str(out, "Generic(");
            let x = string_debug(n);
            push_str(out, x.as_str());
            push_str(out, ", [");
            let ghost start = out@;
            let mut k: usize = 0;
            while k < args.len()
                invariant
                    k <= args@.len(),
                    out@ == start + types_text(args@.take(k as int)),
                decreases args.len() - k,
            {
                proof {
                    broadcast use vstd::std_specs::vec::axiom_vec_index_decreases;
                    assert(decreases_to!(*args => args[k as int]));
                    assert(args@.take(k as int + 1).drop_last() =~= args@.take(k as int));
                    assert(args@.take(k as int + 1).last() == args@[k as int]);
                    if k == 0 {
                        assert(args@.take(1) =~= seq![args@[0]]);
                    }
                }
                if k > 0 {
                    push_str(out, ", ");
                }
                push_type(out, &args[k]);
                k += 1;
            }
            assert(args@.take(args@.len() as int) =~= args@);
            push_str(out, "])");
        },
        Type::Tensor { dtype, shape } => {
            push_str(out, "Tensor { dtype: ");
            push_type(out, dtype);
            push_str(out, ", shape: [");
            let ghost texts = shape@.map_values(|d: ShapeDim| dim_text(d));
            let ghost start = out@;
            let mut k: usize = 0;
            while k < shape.len()
                invariant
                    k <= shape@.len(),
                    texts == shape@.map_values(|d: ShapeDim| dim_text(d)),
                    out@ == start + joined(texts.take(k as int)),
                decreases shape.len() - k,
            {
                proof {
                    lemma_joined_step(texts, k as int);
                }
                if k > 0 {
                    push_str(out, ", ");
                }
                push_dim(out, &shape[k]);
                k += 1;
            }
            assert(texts.take(shape@.len() as int) =~= texts);
            assert(texts =~= shape@.map_values(|d: ShapeDim| dim_text(d)));
            push_str(out, "] }");
        },
        Type::Privacy(inner, tag) => {
            push_str(out, "Privacy(");
            push_type(out, inner);
            push_str(out, ", ");
            push_tag(out, tag);
            push_str(out, ")");
        },
        Type::SelfType => push_str(out, "SelfType"),
        Type::ConstIntArray(v) => {
            push_str(out, "ConstIntArray([");
            let ghost texts = v@.map_values(|x: i64| signed_decimal_text(x as int));
            let ghost start = out@;
            let mut k: usize = 0;
            while k < v.len()
                invariant
                    k <= v@.len(),
                    texts == v@.map_values(|x: i64| signed_decimal_text(x as int)),
                    out@ == start + joined(texts.take(k as int)),
                decreases v.len() - k,
            {
                proof {
                    lemma_joined_step(texts, k as int);
                }
                if k > 0 {
                    push_str(out, ", ");
                }
                push_i64_decimal(out, v[k]);
                k += 1;
            }
            assert(texts.take(v@.len() as int) =~= texts);
            assert(texts =~= v@.map_values(|x: i64| signed_decimal_text(x as int)));
            push_str(out, "])");
        },
        Type::Ref { mutable, inner } => {
            push_str(out, "Ref { mutable: ");
            if *mutable {
                push_str(out, "true");
            } else {
                push_str(out, "false");
            }
            push_str(out, ", inner: ");
            push_type(out, inner);
            push_str(out, " }");
        },
        Type::Slice(inner) => {
            push_str(out, "Slice(");
            push_type(out, inner);
            push_str(out, ")");
        },
        Type::Unit => push_str(out, "Unit"),
    }
}

/// The `{:?}` text of a type.
pub fn type_debug(t: &Type) -> (r: String)
    ensures
        r@ == type_text(*t),
{
    let mut out = String::new();
    push_type(&mut out, t);
    out
}

} // verus!
