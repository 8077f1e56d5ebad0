use vstd::prelude::*;

verus! {

/// `String::push` appends one character.
pub assume_specification[ std::string::String::push ](s: &mut std::string::String, ch: char)
    ensures
        final(s)@ == old(s)@.push(ch),
;

/// `char::from_u32` gives the character whose scalar value is `i`, or `None` where `i` is a
/// surrogate or above `0x10FFFF`.
pub assume_specification[ char::from_u32 ](i: u32) -> (r: Option<char>)
    ensures
        r is Some <==> is_scalar_value(i as int),
        r matches Some(c) ==> c as u32 == i,
;

/// The text of `format!("{:?}", s)` for a string: quoted, with escapes.
pub uninterp spec fn string_debug_text(s: Seq<char>) -> Seq<char>;

/// Writes a string the way `{:?}` does, by calling `format!` on the `str`.
#[verifier::external_body]
pub(crate) fn string_debug(s: &String) -> (r: String)
    ensures
        r@ == string_debug_text(s@),
{
    format!("{:?}", s)
}

/// Unicode scalar values: code points that are not surrogates.
pub open spec fn is_scalar_value(v: int) -> bool {
    (0 <= v < 0xD800) || (0xE000 <= v <= 0x10FFFF)
}

/// The characters of a string, in order.
pub fn chars_of(s: &str) -> (v: Vec<char>)
    ensures
        v@ == s@,
{
    let mut v: Vec<char> = Vec::new();
    for c in it: s.chars()
        invariant
            v@ == it.seq().take(it.index() as int),
    {
        v.push(c);
    }
    v
}

} // verus!

verus! {

/// Appends `v[start..end]` to `out`.
pub fn push_range(out: &mut String, v: &Vec<char>, start: usize, end: usize)
    requires
        start <= end <= v.len(),
    ensures
        final(out)@ == old(out)@ + v@.subrange(start as int, end as int),
{
    let mut k = start;
    while k < end
        invariant
            start <= k <= end <= v.len(),
            out@ == old(out)@ + v@.subrange(start as int, k as int),
        decreases end - k,
    {
        out.push(v[k]);
        k += 1;
        assert(v@.subrange(start as int, k as int) == v@.subrange(start as int, k - 1).push(v@[k - 1]));
    }
}

/// A `String` holding `v[start..end]`.
pub fn string_from_range(v: &Vec<char>, start: usize, end: usize) -> (s: String)
    requires
        start <= end <= v.len(),
    ensures
        s@ == v@.subrange(start as int, end as int),
{
    let mut s = String::new();
    push_range(&mut s, v, start, end);
    s
}

/// Appends the characters of `lit` to `out`.
pub fn push_str(out: &mut String, lit: &str)
    ensures
        final(out)@ == old(out)@ + lit@,
{
    let v = chars_of(lit);
    push_range(out, &v, 0, v.len());
    assert(v@.subrange(0, v.len() as int) == v@);
}

/// Whether the texts of two strings are equal.
pub fn str_eq(a: &str, b: &str) -> (r: bool)
    ensures
        r == (a@ == b@),
{
    let va = chars_of(a);
    let vb = chars_of(b);
    if va.len() != vb.len() {
        return false;
    }
    let mut k: usize = 0;
    while k < va.len()
        invariant
            va.len() == vb.len(),
            k <= va.len(),
            va@ == a@,
            vb@ == b@,
            forall|j: int| 0 <= j < k ==> va@[j] == vb@[j],
        decreases va.len() - k,
    {
        if va[k] != vb[k] {
            return false;
        }
        k += 1;
    }
    assert(va@ =~= vb@);
    true
}


/// The decimal digit character for `d < 10`.
pub open spec fn digit_char(d: int) -> char {
    (0x30 + d) as char
}

/// Decimal digits of `n`, without leading zeros.
pub open spec fn decimal_text(n: nat) -> Seq<char>
    decreases n,
{
    if n < 10 {
        seq![digit_char(n as int)]
    } else {
        decimal_text(n / 10).push(digit_char((n % 10) as int))
    }
}

/// Appends the decimal digits of `n`.
pub fn push_decimal(out: &mut String, n: usize)
    ensures
        final(out)@ == old(out)@ + decimal_text(n as nat),
    decreases n,
{
    if n >= 10 {
        push_decimal(out, n / 10);
    }
    let d = (n % 10) as u32;
    let ch = char::from_u32(0x30 + d).unwrap();
    proof {
        vstd::utf8::char_u32_cast(ch, ch as u32);
    }
    out.push(ch);
    proof {
        if n < 10 {
            assert(decimal_text(n as nat) == seq![digit_char(n as int)]);
        }
    }
}

} // verus!

verus! {

/// Strict lexicographic order by scalar value, the order of Rust's `str` comparison.
pub open spec fn lex_lt(a: Seq<char>, b: Seq<char>) -> bool
    decreases a.len(),
{
    if a.len() == 0 {
        b.len() > 0
    } else if b.len() == 0 {
        false
    } else if a[0] != b[0] {
        (a[0] as u32) < (b[0] as u32)
    } else {
        lex_lt(a.drop_first(), b.drop_first())
    }
}

/// A text sorts before every longer text that starts with it, and after a common start the
/// text with the smaller next character sorts first.
pub proof fn lemma_lex_prefix_and_first_difference(p: Seq<char>, a: Seq<char>, b: Seq<char>)
    ensures
        b.len() > 0 ==> lex_lt(p, p + b),
        a.len() > 0 && b.len() > 0 && (a[0] as u32) < (b[0] as u32) ==> lex_lt(p + a, p + b),
    decreases p.len(),
{
    if p.len() > 0 {
        lemma_lex_prefix_and_first_difference(p.drop_first(), a, b);
        assert((p + b).drop_first() =~= p.drop_first() + b);
        assert((p + a).drop_first() =~= p.drop_first() + a);
    } else {
        assert(p + b =~= b);
        assert(p + a =~= a);
    }
}

pub proof fn lemma_lex_irreflexive(a: Seq<char>)
    ensures
        !lex_lt(a, a),
    decreases a.len(),
{
    if a.len() > 0 {
        lemma_lex_irreflexive(a.drop_first());
    }
}

pub proof fn lemma_lex_transitive(a: Seq<char>, b: Seq<char>, c: Seq<char>)
    requires
        lex_lt(a, b),
        lex_lt(b, c),
    ensures
        lex_lt(a, c),
    decreases a.len(),
{
    if a.len() > 0 && b.len() > 0 && c.len() > 0 {
        if a[0] == b[0] && b[0] == c[0] {
            lemma_lex_transitive(a.drop_first(), b.drop_first(), c.drop_first());
        }
    }
}

pub proof fn lemma_lex_total(a: Seq<char>, b: Seq<char>)
    requires
        a != b,
    ensures
        lex_lt(a, b) || lex_lt(b, a),
    decreases a.len(),
{
    if a.len() > 0 && b.len() > 0 && a[0] == b[0] {
        if a.drop_first() == b.drop_first() {
            assert(a =~= seq![a[0]] + a.drop_first());
            assert(b =~= seq![b[0]] + b.drop_first());
        }
        lemma_lex_total(a.drop_first(), b.drop_first());
    } else if a.len() == 0 && b.len() == 0 {
        assert(a =~= b);
    } else if a.len() > 0 && b.len() > 0 {
        vstd::utf8::char_u32_cast(a[0], a[0] as u32);
        vstd::utf8::char_u32_cast(b[0], b[0] as u32);
    }
}

/// Whether `a` comes before `b` in lexicographic order.
pub fn str_lt(a: &str, b: &str) -> (r: bool)
    ensures
        r == lex_lt(a@, b@),
{
    let va = chars_of(a);
    let vb = chars_of(b);
    let mut k: usize = 0;
    assert(a@.skip(0) =~= a@);
    assert(b@.skip(0) =~= b@);
    while k < va.len() && k < vb.len()
        invariant
            va@ == a@,
            vb@ == b@,
            k <= va@.len(),
            k <= vb@.len(),
            forall|j: int| 0 <= j < k ==> va@[j] == vb@[j],
            lex_lt(a@, b@) == lex_lt(a@.skip(k as int), b@.skip(k as int)),
        decreases va.len() - k,
    {
        if va[k] != vb[k] {
            proof {
                assert(a@.skip(k as int)[0] == va@[k as int]);
                assert(b@.skip(k as int)[0] == vb@[k as int]);
            }
            return (va[k] as u32) < (vb[k] as u32);
        }
        proof {
            assert(a@.skip(k as int).drop_first() =~= a@.skip(k + 1));
            assert(b@.skip(k as int).drop_first() =~= b@.skip(k + 1));
        }
        k += 1;
    }
    vb.len() > k
}

} // verus!

verus! {

/// The texts of a list of strings.
pub open spec fn string_views(v: Seq<String>) -> Seq<Seq<char>> {
    v.map_values(|s: String| s@)
}

pub proof fn lemma_views_push(v: Seq<String>, s: String)
    ensures
        string_views(v.push(s)) == string_views(v).push(s@),
{
    assert(string_views(v.push(s)) =~= string_views(v).push(s@));
}

pub proof fn lemma_views_index(v: Seq<String>, i: int)
    requires
        0 <= i < v.len(),
    ensures
        string_views(v).len() == v.len(),
        string_views(v)[i] == v[i]@,
{
}

} // verus!

verus! {

/// Appends the decimal digits of `n`.
pub fn push_u64_decimal(out: &mut String, n: u64)
    ensures
        final(out)@ == old(out)@ + decimal_text(n as nat),
    decreases n,
{
    if n >= 10 {
        push_u64_decimal(out, n / 10);
    }
    let d = (n % 10) as u32;
    let ch = char::from_u32(0x30 + d).unwrap();
    proof {
        vstd::utf8::char_u32_cast(ch, ch as u32);
    }
    out.push(ch);
    proof {
        if n < 10 {
            assert(decimal_text(n as nat) == seq![digit_char(n as int)]);
        }
    }
}

/// Decimal text of a signed number, with `-` where it is negative.
pub open spec fn signed_decimal_text(v: int) -> Seq<char> {
    if v < 0 { seq!['-'] + decimal_text((-v) as nat) } else { decimal_text(v as nat) }
}

/// Appends the decimal text of `v` (see [`signed_decimal_text`]).
pub fn push_i64_decimal(out: &mut String, v: i64)
    ensures
        final(out)@ == old(out)@ + signed_decimal_text(v as int),
{
    if v < 0 {
        out.push('-');
        let m: u64 = if v == i64::MIN { 0x8000_0000_0000_0000u64 } else { (-v) as u64 };
        let ghost before = out@;
        push_u64_decimal(out, m);
        assert(out@ == before + decimal_text(m as nat));
    } else {
        push_u64_decimal(out, v as u64);
    }
}

} // verus!
