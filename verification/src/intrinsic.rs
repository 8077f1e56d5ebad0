use vstd::prelude::*;
use crate::ast::Type;
use crate::text::str_eq;

verus! {

/// What the compiler knows of a built-in function.
#[derive(Debug)]
pub struct Intrinsic {
    pub name: &'static str,
    pub allowed_in_model: bool,
    pub is_pure: bool,
    pub signature: Option<Vec<Type>>,
    pub return_type: Option<Type>,
    pub link_name: &'static str,
    pub doc: &'static str,
}

/// The names of the built-in functions, in table order.
pub open spec fn intrinsic_names() -> Seq<Seq<char>> {
    seq!["print"@, "panic"@, "from_utf8_unchecked"@, "tensor.cond"@, "tensor.while_loop"@, "linear"@, "i128::MAX"@]
}

/// Position in the table of the first entry named `name`.
pub open spec fn intrinsic_index(name: Seq<char>) -> Option<int> {
    if name == "print"@ {
        Some(0)
    } else if name == "panic"@ {
        Some(1)
    } else if name == "from_utf8_unchecked"@ {
        Some(2)
    } else if name == "tensor.cond"@ {
        Some(3)
    } else if name == "tensor.while_loop"@ {
        Some(4)
    } else if name == "linear"@ {
        Some(5)
    } else if name == "i128::MAX"@ {
        Some(6)
    } else {
        None
    }
}

/// The lookup agrees with the table: each listed name is found at its own place, and a name
/// that is found is the one listed there.
pub proof fn lemma_intrinsic_lookup_matches_table(name: Seq<char>, k: int)
    ensures
        0 <= k < intrinsic_names().len() ==> intrinsic_index(intrinsic_names()[k]) == Some(k),
        intrinsic_index(name) matches Some(j) ==> 0 <= j < intrinsic_names().len() && intrinsic_names()[j] == name,
{
    reveal_strlit("print");
    reveal_strlit("panic");
    reveal_strlit("from_utf8_unchecked");
    reveal_strlit("tensor.cond");
    reveal_strlit("tensor.while_loop");
    reveal_strlit("linear");
    reveal_strlit("i128::MAX");
    let t = intrinsic_names();
    assert(t[1][1] != t[0][1]);
    assert forall|a: int, b: int| 0 <= a < b < 7 && !(a == 0 && b == 1) && !(a == 3 && b == 4)
        implies (#[trigger] t[a])[0] != (#[trigger] t[b])[0] by {}
    assert(t[3].len() != t[4].len());
}

/// `&[u8]`
pub open spec fn is_byte_slice_ref(t: Type) -> bool {
    t matches Type::Ref { mutable: false, inner } && (*inner matches Type::Slice(e) && *e == Type::U8)
}

/// `&str`
pub open spec fn is_str_ref(t: Type) -> bool {
    t matches Type::Ref { mutable: false, inner } && *inner == Type::Str
}

/// The table entry at position `k`: flags, link name, documentation, parameter and result types.
pub open spec fn intrinsic_entry(i: Intrinsic, k: int) -> bool {
    &&& i.name@ == intrinsic_names()[k]
    &&& (k == 0 ==> !i.allowed_in_model && !i.is_pure && i.link_name@ == "xiyi::io::print"@
        && i.doc@ == "Prints a value to the standard output"@
        && (i.signature matches Some(s) && s@.len() == 1 && s@[0] == Type::Str) && i.return_type == Some(Type::Unit))
    &&& (k == 1 ==> !i.allowed_in_model && !i.is_pure && i.link_name@ == "core::panic"@
        && i.doc@ == "Panics with a given message"@
        && (i.signature matches Some(s) && s@.len() == 1 && s@[0] == Type::Str) && i.return_type == Some(Type::Unit))
    &&& (k == 2 ==> i.allowed_in_model && i.is_pure && i.link_name@ == "core::str::from_utf8_unchecked"@
        && i.doc@ == "Converts a &[u8] to &str without validation (unsafe)"@
        && (i.signature matches Some(s) && s@.len() == 1 && is_byte_slice_ref(s@[0]))
        && (i.return_type matches Some(t) && is_str_ref(t)))
    &&& (k == 3 ==> i.allowed_in_model && i.is_pure && i.link_name@ == "xiyi_tensor::cond"@
        && i.doc@ == "Dynamic conditional operator in graph domain"@ && i.signature is None && i.return_type is None)
    &&& (k == 4 ==> i.allowed_in_model && i.is_pure && i.link_name@ == "xiyi_tensor::while_loop"@
        && i.doc@ == "Dynamic while loop operator in graph domain"@ && i.signature is None && i.return_type is None)
    &&& (k == 5 ==> i.allowed_in_model && i.is_pure && i.link_name@ == "xiyi_math::linear"@
        && i.doc@ == "Tensor linear transformation"@ && i.signature is None && i.return_type is None)
    &&& (k == 6 ==> i.allowed_in_model && i.is_pure && i.link_name@ == "i128::MAX"@
        && i.doc@ == "Maximum value of i128"@ && i.signature is None && i.return_type == Some(Type::I128))
}

fn make_intrinsic(k: usize) -> (r: Intrinsic)
    requires
        k < 7,
    ensures
        intrinsic_entry(r, k as int),
{
    if k == 0 {
        Intrinsic {
            name: "print",
            allowed_in_model: false,
            is_pure: false,
            signature: Some(vec![Type::Str]),
            return_type: Some(Type::Unit),
            link_name: "xiyi::io::print",
            doc: "Prints a value to the standard output",
        }
    } else if k == 1 {
        Intrinsic {
            name: "panic",
            allowed_in_model: false,
            is_pure: false,
            signature: Some(vec![Type::Str]),
            return_type: Some(Type::Unit),
            link_name: "core::panic",
            doc: "Panics with a given message",
        }
    } else if k == 2 {
        Intrinsic {
            name: "from_utf8_unchecked",
            allowed_in_model: true,
            is_pure: true,
            signature: Some(vec![Type::Ref { mutable: false, inner: Box::new(Type::Slice(Box::new(Type::U8))) }]),
            return_type: Some(Type::Ref { mutable: false, inner: Box::new(Type::Str) }),
            link_name: "core::str::from_utf8_unchecked",
            doc: "Converts a &[u8] to &str without validation (unsafe)",
        }
    } else if k == 3 {
        Intrinsic {
            name: "tensor.cond",
            allowed_in_model: true,
            is_pure: true,
            signature: None,
            return_type: None,
            link_name: "xiyi_tensor::cond",
            doc: "Dynamic conditional operator in graph domain",
        }
    } else if k == 4 {
        Intrinsic {
            name: "tensor.while_loop",
            allowed_in_model: true,
            is_pure: true,
            signature: None,
            return_type: None,
            link_name: "xiyi_tensor::while_loop",
            doc: "Dynamic while loop operator in graph domain",
        }
    } else if k == 5 {
        Intrinsic {
            name: "linear",
            allowed_in_model: true,
            is_pure: true,
            signature: None,
            return_type: None,
            link_name: "xiyi_math::linear",
            doc: "Tensor linear transformation",
        }
    } else {
        Intrinsic {
            name: "i128::MAX",
            allowed_in_model: true,
            is_pure: true,
            signature: None,
            return_type: Some(Type::I128),
            link_name: "i128::MAX",
            doc: "Maximum value of i128",
        }
    }
}

fn index_of(name: &str) -> (r: Option<usize>)
    ensures
        match intrinsic_index(name@) {
            Some(k) => r == Some(k as usize),
            None => r is None,
        },
{
    if str_eq(name, "print") {
        Some(0)
    } else if str_eq(name, "panic") {
        Some(1)
    } else if str_eq(name, "from_utf8_unchecked") {
        Some(2)
    } else if str_eq(name, "tensor.cond") {
        Some(3)
    } else if str_eq(name, "tensor.while_loop") {
        Some(4)
    } else if str_eq(name, "linear") {
        Some(5)
    } else if str_eq(name, "i128::MAX") {
        Some(6)
    } else {
        None
    }
}

/// The built-in function named `name`, where there is one.
pub fn get_intrinsic(name: &str) -> (r: Option<Intrinsic>)
    ensures
        match intrinsic_index(name@) {
            Some(k) => r matches Some(i) && intrinsic_entry(i, k),
            None => r is None,
        },
{
    match index_of(name) {
        Some(k) => Some(make_intrinsic(k)),
        None => None,
    }
}

/// Whether `name` names a built-in function.
pub fn is_intrinsic(name: &str) -> (r: bool)
    ensures
        r == (intrinsic_index(name@) is Some),
{
    index_of(name).is_some()
}

/// The names of all built-in functions, in table order.
pub fn all_intrinsic_names() -> (r: Vec<&'static str>)
    ensures
        r@.len() == intrinsic_names().len(),
        forall|k: int| 0 <= k < r@.len() ==> (#[trigger] r@[k])@ == intrinsic_names()[k],
{
    let mut out: Vec<&'static str> = Vec::new();
    let mut k: usize = 0;
    while k < 7
        invariant
            k <= 7,
            out@.len() == k,
            forall|j: int| 0 <= j < k ==> (#[trigger] out@[j])@ == intrinsic_names()[j],
        decreases 7 - k,
    {
        let i = make_intrinsic(k);
        out.push(i.name);
        k += 1;
    }
    out
}

} // verus!
