use vstd::prelude::*;
use crate::parser::{decimal_value, all_digits, lemma_decimal_value_nonneg};
use crate::lexer::is_digit;
use crate::text::chars_of;

verus! {

/// Unicode white space, what `str::trim` removes.
pub open spec fn is_white(c: char) -> bool {
    let v = c as u32;
    (0x09 <= v <= 0x0D) || v == 0x20 || v == 0x85 || v == 0xA0 || v == 0x1680
        || (0x2000 <= v <= 0x200A) || v == 0x2028 || v == 0x2029 || v == 0x202F || v == 0x205F
        || v == 0x3000
}

/// Number of leading white-space characters.
pub open spec fn lead_white(s: Seq<char>) -> int
    decreases s.len(),
{
    if s.len() > 0 && is_white(s[0]) { 1 + lead_white(s.drop_first()) } else { 0 }
}

/// Number of trailing white-space characters.
pub open spec fn trail_white(s: Seq<char>) -> int
    decreases s.len(),
{
    if s.len() > 0 && is_white(s.last()) { 1 + trail_white(s.drop_last()) } else { 0 }
}

/// `s` without leading and trailing white space.
pub open spec fn trim(s: Seq<char>) -> Seq<char> {
    let a = lead_white(s);
    let rest = s.skip(a);
    rest.take(rest.len() - trail_white(rest))
}

/// `s` without trailing `'0'`s.
pub open spec fn trim_zeros(s: Seq<char>) -> Seq<char>
    decreases s.len(),
{
    if s.len() > 0 && s.last() == '0' { trim_zeros(s.drop_last()) } else { s }
}

/// Value of a non-empty run of decimal digits.
pub open spec fn digits_value(d: Seq<char>) -> Option<int> {
    if d.len() > 0 && all_digits(d) { Some(decimal_value(d)) } else { None }
}

/// What `str::parse::<i128>` gives: an optional sign and decimal digits, in range.
pub open spec fn parse_i128(s: Seq<char>) -> Option<int> {
    if s.len() > 0 && s[0] == '-' {
        match digits_value(s.drop_first()) {
            Some(v) => if -v >= i128::MIN { Some(-v) } else { None },
            None => None,
        }
    } else {
        let d = if s.len() > 0 && s[0] == '+' { s.drop_first() } else { s };
        match digits_value(d) {
            Some(v) => if v <= i128::MAX { Some(v) } else { None },
            None => None,
        }
    }
}

/// What `str::parse::<u128>` gives: an optional `+` and decimal digits, in range.
pub open spec fn parse_u128(s: Seq<char>) -> Option<int> {
    let d = if s.len() > 0 && s[0] == '+' { s.drop_first() } else { s };
    match digits_value(d) {
        Some(v) => if v <= u128::MAX { Some(v) } else { None },
        None => None,
    }
}

pub open spec fn pow10(n: nat) -> int
    decreases n,
{
    if n == 0 { 1 } else { 10 * pow10((n - 1) as nat) }
}

pub open spec fn in_i128(v: int) -> bool {
    i128::MIN <= v <= i128::MAX
}

/// Index of the first `c` in `s`.
pub open spec fn first_index(s: Seq<char>, c: char) -> Option<int>
    decreases s.len(),
{
    if s.len() == 0 {
        None
    } else if s[0] == c {
        Some(0)
    } else {
        match first_index(s.drop_first(), c) {
            Some(i) => Some(i + 1),
            None => None,
        }
    }
}

/// The rational number that a text writes, as a numerator and a positive denominator:
/// `n/d` (one slash, each side trimmed, `d` not zero), an integer, or a decimal `a.b` (the
/// denominator is `10` to the number of digits of `b` without its trailing zeros). `None` for
/// any other text, and where a step of the computation leaves the range of `i128` / `u128`.
pub open spec fn rational_value(s: Seq<char>) -> Option<(int, int)> {
    let t = trim(s);
    match first_index(t, '/') {
        Some(k) => {
            let rest = t.skip(k + 1);
            if first_index(rest, '/') is Some {
                None
            } else {
                match (parse_i128(trim(t.take(k))), parse_u128(trim(rest))) {
                    (Some(n), Some(d)) => if d != 0 { Some((n, d)) } else { None },
                    _ => None,
                }
            }
        },
        None => if parse_i128(t) is Some {
            Some((parse_i128(t)->Some_0, 1))
        } else {
            match first_index(t, '.') {
                Some(k) => {
                    let int_part = t.take(k);
                    let frac = trim_zeros(t.skip(k + 1));
                    let sign: int = if t.len() > 0 && t[0] == '-' { -1 } else { 1 };
                    let int_val = if int_part.len() == 0 || int_part == seq!['-'] { Some(0int) } else { parse_i128(int_part) };
                    let frac_val = if frac.len() == 0 { Some(0int) } else { parse_i128(frac) };
                    let den = pow10(frac.len());
                    match (int_val, frac_val) {
                        (Some(i), Some(f)) => if den <= u128::MAX && in_i128(i * den) && in_i128(sign * f)
                            && in_i128(i * den + sign * f) {
                            Some((i * den + sign * f, den))
                        } else {
                            None
                        },
                        _ => None,
                    }
                },
                None => None,
            }
        },
    }
}

/// The value of a rational text, `0/1` where the text is not one.
pub open spec fn rational_or_zero(s: Seq<char>) -> (int, int) {
    match rational_value(s) {
        Some(p) => p,
        None => (0, 1),
    }
}

/// `a <= b` compared as rationals (cross-multiplied); `false` where a product leaves the
/// range of `i128` or a denominator does not fit it.
pub open spec fn rational_le_spec(a: Seq<char>, b: Seq<char>) -> bool {
    let (na, da) = rational_or_zero(a);
    let (nb, db) = rational_or_zero(b);
    da <= i128::MAX && db <= i128::MAX && in_i128(na * db) && in_i128(nb * da) && na * db <= nb * da
}

/// `a == b` compared as rationals (cross-multiplied); `false` where a product leaves the
/// range of `i128` or a denominator does not fit it.
pub open spec fn rational_eq_spec(a: Seq<char>, b: Seq<char>) -> bool {
    let (na, da) = rational_or_zero(a);
    let (nb, db) = rational_or_zero(b);
    da <= i128::MAX && db <= i128::MAX && in_i128(na * db) && in_i128(nb * da) && na * db == nb * da
}

proof fn lemma_pow10_positive(n: nat)
    ensures
        pow10(n) > 0,
    decreases n,
{
    if n > 0 {
        lemma_pow10_positive((n - 1) as nat);
    }
}

proof fn lemma_parse_u128_nonneg(s: Seq<char>)
    ensures
        parse_u128(s) matches Some(v) ==> v >= 0,
{
    let d = if s.len() > 0 && s[0] == '+' { s.drop_first() } else { s };
    if d.len() > 0 && all_digits(d) {
        lemma_decimal_value_nonneg(d);
    }
}

/// The denominator of a rational text is positive.
pub proof fn lemma_rational_denominator_positive(s: Seq<char>)
    ensures
        rational_or_zero(s).1 > 0,
{
    let t = trim(s);
    match first_index(t, '/') {
        Some(k) => {
            lemma_parse_u128_nonneg(trim(t.skip(k + 1)));
        },
        None => {
            if first_index(t, '.') is Some {
                lemma_pow10_positive(trim_zeros(t.skip(first_index(t, '.')->0 + 1)).len());
            }
        },
    }
}

// ===== executable =====

fn char_is_white(c: char) -> (r: bool)
    ensures
        r == is_white(c),
{
    let v = c as u32;
    (0x09 <= v && v <= 0x0D) || v == 0x20 || v == 0x85 || v == 0xA0 || v == 0x1680
        || (0x2000 <= v && v <= 0x200A) || v == 0x2028 || v == 0x2029 || v == 0x202F || v == 0x205F
        || v == 0x3000
}

proof fn lemma_lead_white(s: Seq<char>, k: int)
    requires
        0 <= k <= s.len(),
        forall|j: int| 0 <= j < k ==> is_white(#[trigger] s[j]),
        k == s.len() || !is_white(s[k]),
    ensures
        lead_white(s) == k,
    decreases k,
{
    if k > 0 {
        assert forall|j: int| 0 <= j < k - 1 implies is_white(#[trigger] s.drop_first()[j]) by {
            assert(s.drop_first()[j] == s[j + 1]);
        }
        if k < s.len() {
            assert(s.drop_first()[k - 1] == s[k]);
        }
        lemma_lead_white(s.drop_first(), k - 1);
    }
}

proof fn lemma_trail_white(s: Seq<char>, k: int)
    requires
        0 <= k <= s.len(),
        forall|j: int| s.len() - k <= j < s.len() ==> is_white(#[trigger] s[j]),
        k == s.len() || !is_white(s[s.len() - k - 1]),
    ensures
        trail_white(s) == k,
    decreases k,
{
    if k > 0 {
        assert forall|j: int| s.drop_last().len() - (k - 1) <= j < s.drop_last().len()
            implies is_white(#[trigger] s.drop_last()[j]) by {
            assert(s.drop_last()[j] == s[j]);
        }
        lemma_trail_white(s.drop_last(), k - 1);
    }
}

/// Bounds `[a, b)` of the trimmed part of `v`.
fn trim_bounds(v: &Vec<char>, start: usize, end: usize) -> (r: (usize, usize))
    requires
        start <= end <= v@.len(),
    ensures
        start <= r.0 <= r.1 <= end,
        v@.subrange(r.0 as int, r.1 as int) == trim(v@.subrange(start as int, end as int)),
{
    let ghost s = v@.subrange(start as int, end as int);
    let mut a = start;
    while a < end && char_is_white(v[a])
        invariant
            start <= a <= end <= v@.len(),
            forall|j: int| start <= j < a ==> is_white(#[trigger] v@[j]),
        decreases end - a,
    {
        a += 1;
    }
    proof {
        assert forall|j: int| 0 <= j < a - start implies is_white(#[trigger] s[j]) by {
            assert(s[j] == v@[start + j]);
        }
        if a < end {
            assert(s[a - start] == v@[a as int]);
        }
        lemma_lead_white(s, a - start);
    }
    let mut b = end;
    while b > a && char_is_white(v[b - 1])
        invariant
            start <= a <= b <= end <= v@.len(),
            forall|j: int| b <= j < end ==> is_white(#[trigger] v@[j]),
        decreases b - a,
    {
        b -= 1;
    }
    proof {
        let rest = s.skip(a - start);
        assert(rest == v@.subrange(a as int, end as int));
        assert forall|j: int| rest.len() - (end - b) <= j < rest.len() implies is_white(#[trigger] rest[j]) by {
            assert(rest[j] == v@[a + j]);
        }
        if b > a {
            assert(rest[rest.len() - (end - b) - 1] == v@[b - 1]);
        }
        lemma_trail_white(rest, end - b);
        assert(rest.take(rest.len() - (end - b)) == v@.subrange(a as int, b as int));
    }
    (a, b)
}

/// Value of the digits `v[a..b]`, where they are a non-empty run of digits whose value fits
/// `u128`.
fn digits_u128(v: &Vec<char>, a: usize, b: usize) -> (r: Option<u128>)
    requires
        a <= b <= v@.len(),
    ensures
        match digits_value(v@.subrange(a as int, b as int)) {
            Some(x) => if x <= u128::MAX { r == Some(x as u128) } else { r is None },
            None => r is None,
        },
        r matches Some(x) ==> digits_value(v@.subrange(a as int, b as int)) == Some(x as int),
{
    let ghost d = v@.subrange(a as int, b as int);
    if a == b {
        return None;
    }
    let mut acc: u128 = 0;
    let mut k = a;
    while k < b
        invariant
            a <= k <= b <= v@.len(),
            d == v@.subrange(a as int, b as int),
            all_digits(v@.subrange(a as int, k as int)),
            acc == decimal_value(v@.subrange(a as int, k as int)),
        decreases b - k,
    {
        let c = v[k];
        assert(v@.subrange(a as int, k + 1).drop_last() == v@.subrange(a as int, k as int));
        if !(('0' as u32) <= (c as u32) && (c as u32) <= ('9' as u32)) {
            proof {
                assert(d[k - a] == c);
                assert(!is_digit(c));
            }
            return None;
        }
        let dv = (c as u32 - 0x30) as u128;
        if acc > (u128::MAX - dv) / 10 {
            proof {
                assert(all_digits(v@.subrange(a as int, k + 1)));
                assert(decimal_value(v@.subrange(a as int, k + 1)) > u128::MAX) by (nonlinear_arith)
                    requires
                        decimal_value(v@.subrange(a as int, k + 1)) == acc * 10 + dv,
                        acc > (u128::MAX - dv) / 10,
                        dv <= 9,
                ;
                lemma_digits_prefix_le(d, k + 1 - a);
                assert(d.take(k + 1 - a) == v@.subrange(a as int, k + 1));
            }
            return None;
        }
        acc = acc * 10 + dv;
        k += 1;
        assert(all_digits(v@.subrange(a as int, k as int)));
    }
    assert(v@.subrange(a as int, k as int) == d);
    Some(acc)
}

proof fn lemma_digits_prefix_le(d: Seq<char>, k: int)
    requires
        0 <= k <= d.len(),
        all_digits(d.take(k)),
    ensures
        all_digits(d) ==> decimal_value(d.take(k)) <= decimal_value(d),
    decreases d.len() - k,
{
    if k < d.len() && all_digits(d) {
        assert(all_digits(d.take(k + 1)));
        lemma_digits_prefix_le(d, k + 1);
        assert(d.take(k + 1).drop_last() == d.take(k));
        lemma_nonneg(d.take(k));
        assert(is_digit(d[k]));
    } else if k == d.len() {
        assert(d.take(k) == d);
    }
}

proof fn lemma_nonneg(d: Seq<char>)
    requires
        all_digits(d),
    ensures
        decimal_value(d) >= 0,
    decreases d.len(),
{
    if d.len() > 0 {
        assert(all_digits(d.drop_last()));
        lemma_nonneg(d.drop_last());
        assert(is_digit(d[d.len() - 1]));
    }
}

/// `str::parse::<i128>` on `v[a..b]`.
fn parse_i128_at(v: &Vec<char>, a: usize, b: usize) -> (r: Option<i128>)
    requires
        a <= b <= v@.len(),
    ensures
        match parse_i128(v@.subrange(a as int, b as int)) {
            Some(x) => r == Some(x as i128),
            None => r is None,
        },
        r matches Some(y) ==> parse_i128(v@.subrange(a as int, b as int)) == Some(y as int),
{
    let ghost s = v@.subrange(a as int, b as int);
    assert(s.len() > 0 ==> s[0] == v@[a as int]);
    if a < b && v[a] == '-' {
        assert(s.drop_first() == v@.subrange(a + 1, b as int));
        let ghost dv = digits_value(s.drop_first());
        match digits_u128(v, a + 1, b) {
            Some(x) => {
                assert(dv == Some(x as int));
                if x <= 0x8000_0000_0000_0000_0000_0000_0000_0000u128 {
                    assert(-(x as int) >= i128::MIN);
                    assert(parse_i128(s) == Some(-(x as int)));
                    if x == 0x8000_0000_0000_0000_0000_0000_0000_0000u128 {
                        Some(i128::MIN)
                    } else {
                        let y = x as i128;
                        assert(y == x);
                        Some(-y)
                    }
                } else {
                    None
                }
            },
            None => None,
        }
    } else {
        let start = if a < b && v[a] == '+' { a + 1 } else { a };
        assert(v@.subrange(start as int, b as int) == (if s.len() > 0 && s[0] == '+' { s.drop_first() } else { s }));
        assert(!(s.len() > 0 && s[0] == '-'));
        match digits_u128(v, start, b) {
            Some(x) => if x <= i128::MAX as u128 { Some(x as i128) } else { None },
            None => None,
        }
    }
}

/// `str::parse::<u128>` on `v[a..b]`.
fn parse_u128_at(v: &Vec<char>, a: usize, b: usize) -> (r: Option<u128>)
    requires
        a <= b <= v@.len(),
    ensures
        match parse_u128(v@.subrange(a as int, b as int)) {
            Some(x) => r == Some(x as u128),
            None => r is None,
        },
        r matches Some(y) ==> parse_u128(v@.subrange(a as int, b as int)) == Some(y as int),
{
    let ghost s = v@.subrange(a as int, b as int);
    assert(s.len() > 0 ==> s[0] == v@[a as int]);
    let start = if a < b && v[a] == '+' { a + 1 } else { a };
    assert(v@.subrange(start as int, b as int) == (if s.len() > 0 && s[0] == '+' { s.drop_first() } else { s }));
    digits_u128(v, start, b)
}

} // verus!

verus! {

/// Index of the first `c` in `v[a..b]`.
fn find_char(v: &Vec<char>, a: usize, b: usize, c: char) -> (r: Option<usize>)
    requires
        a <= b <= v@.len(),
    ensures
        match first_index(v@.subrange(a as int, b as int), c) {
            Some(i) => r matches Some(k) && k as int == a + i,
            None => r is None,
        },
        r matches Some(i) ==> a <= i < b,
{
    let mut k = a;
    while k < b
        invariant
            a <= k <= b <= v@.len(),
            forall|j: int| a <= j < k ==> v@[j] != c,
        decreases b - k,
    {
        if v[k] == c {
            proof {
                lemma_first_index(v@.subrange(a as int, b as int), c, k - a);
            }
            return Some(k);
        }
        k += 1;
    }
    proof {
        lemma_first_index_none(v@.subrange(a as int, b as int), c);
    }
    None
}

proof fn lemma_first_index(s: Seq<char>, c: char, i: int)
    requires
        0 <= i < s.len(),
        s[i] == c,
        forall|j: int| 0 <= j < i ==> s[j] != c,
    ensures
        first_index(s, c) == Some(i),
    decreases i,
{
    if i > 0 {
        assert forall|j: int| 0 <= j < i - 1 implies s.drop_first()[j] != c by {
            assert(s.drop_first()[j] == s[j + 1]);
        }
        lemma_first_index(s.drop_first(), c, i - 1);
    }
}

proof fn lemma_first_index_none(s: Seq<char>, c: char)
    requires
        forall|j: int| 0 <= j < s.len() ==> s[j] != c,
    ensures
        first_index(s, c) is None,
    decreases s.len(),
{
    if s.len() > 0 {
        assert forall|j: int| 0 <= j < s.drop_first().len() implies s.drop_first()[j] != c by {
            assert(s.drop_first()[j] == s[j + 1]);
        }
        lemma_first_index_none(s.drop_first(), c);
    }
}

proof fn lemma_trim_zeros(s: Seq<char>, e: int)
    requires
        0 <= e <= s.len(),
        forall|j: int| e <= j < s.len() ==> s[j] == '0',
        e == 0 || s[e - 1] != '0',
    ensures
        trim_zeros(s) == s.take(e),
    decreases s.len(),
{
    if s.len() > e {
        assert forall|j: int| e <= j < s.drop_last().len() implies s.drop_last()[j] == '0' by {}
        lemma_trim_zeros(s.drop_last(), e);
        assert(s.drop_last().take(e) == s.take(e));
    } else {
        assert(s.take(e) == s);
    }
}

/// The rational number that a text writes (see [`rational_value`]).
#[verifier::rlimit(60)]
pub fn parse_rational(s: &str) -> (r: Option<(i128, u128)>)
    ensures
        match rational_value(s@) {
            Some((n, d)) => r == Some((n as i128, d as u128)),
            None => r is None,
        },
        r matches Some((n, d)) ==> rational_value(s@) == Some((n as int, d as int)),
{
    let v = chars_of(s);
    let (a, b) = trim_bounds(&v, 0, v.len());
    let ghost t = v@.subrange(a as int, b as int);
    assert(v@.subrange(0, v@.len() as int) == s@);
    match find_char(&v, a, b, '/') {
        Some(k) => {
            proof {
                assert(t.skip(k - a + 1) == v@.subrange(k + 1, b as int));
                assert(t.take(k - a) == v@.subrange(a as int, k as int));
            }
            assert(trim(s@) == t);
            assert(first_index(t, '/') == Some(k - a));
            if find_char(&v, k + 1, b, '/').is_some() {
                assert(first_index(t.skip(k - a + 1), '/') is Some);
                assert(rational_value(s@) is None);
                return None;
            }
            let (x0, x1) = trim_bounds(&v, a, k);
            let (y0, y1) = trim_bounds(&v, k + 1, b);
            let num = match parse_i128_at(&v, x0, x1) {
                Some(n) => n,
                None => return None,
            };
            let den = match parse_u128_at(&v, y0, y1) {
                Some(d) => d,
                None => return None,
            };
            if den == 0 {
                return None;
            }
            Some((num, den))
        },
        None => {
            if let Some(n) = parse_i128_at(&v, a, b) {
                return Some((n, 1));
            }
            match find_char(&v, a, b, '.') {
                Some(k) => {
                    let mut e = b;
                    while e > k + 1 && v[e - 1] == '0'
                        invariant
                            k + 1 <= e <= b <= v@.len(),
                            forall|j: int| e <= j < b ==> v@[j] == '0',
                        decreases e,
                    {
                        e -= 1;
                    }
                    proof {
                        let fp = t.skip(k - a + 1);
                        assert(fp == v@.subrange(k + 1, b as int));
                        assert forall|j: int| e - (k + 1) <= j < fp.len() implies fp[j] == '0' by {
                            assert(fp[j] == v@[k + 1 + j]);
                        }
                        if e > k + 1 {
                            assert(fp[e - (k + 1) - 1] == v@[e - 1]);
                        }
                        lemma_trim_zeros(fp, e - (k + 1));
                        assert(fp.take(e - (k + 1)) == v@.subrange(k + 1, e as int));
                        assert(t.take(k - a) == v@.subrange(a as int, k as int));
                        assert(t.len() > 0 ==> t[0] == v@[a as int]);
                    }
                    let negative = b > a && v[a] == '-';
                    let int_val: i128 = if k == a || (k == a + 1 && v[a] == '-') {
                        proof {
                            if k == a + 1 && v@[a as int] == '-' {
                                assert(t.take(k - a) =~= seq!['-']);
                            }
                        }
                        0
                    } else {
                        proof {
                            if k == a + 1 {
                                assert(t.take(k - a) != seq!['-']) by {
                                    assert(t.take(k - a)[0] == v@[a as int]);
                                }
                            } else {
                                assert(t.take(k - a).len() != 1);
                            }
                        }
                        match parse_i128_at(&v, a, k) {
                            Some(x) => x,
                            None => return None,
                        }
                    };
                    let flen = e - (k + 1);
                    if flen > 38 {
                        proof {
                            lemma_pow10_grows(flen as nat);
                        }
                        return None;
                    }
                    let mut den: u128 = 1;
                    let mut j: usize = 0;
                    while j < flen
                        invariant
                            j <= flen <= 38,
                            den == pow10(j as nat),
                        decreases flen - j,
                    {
                        proof {
                            lemma_pow10_bound(j as nat);
                            lemma_pow10_mono(j as nat, 37);
                        }
                        den = den * 10;
                        j += 1;
                    }
                    proof {
                        lemma_pow10_bound(flen as nat);
                    }
                    let frac_val: i128 = if flen == 0 {
                        0
                    } else {
                        match parse_i128_at(&v, k + 1, e) {
                            Some(x) => x,
                            None => return None,
                        }
                    };
                    let scaled = match int_val.checked_mul(den as i128) {
                        Some(x) => x,
                        None => return None,
                    };
                    let signed_frac = if negative {
                        match frac_val.checked_mul(-1) {
                            Some(x) => x,
                            None => return None,
                        }
                    } else {
                        frac_val
                    };
                    match scaled.checked_add(signed_frac) {
                        Some(num) => Some((num, den)),
                        None => None,
                    }
                },
                None => None,
            }
        },
    }
}

proof fn lemma_pow10_bound(n: nat)
    requires
        n <= 38,
    ensures
        1 <= pow10(n) <= pow10(38),
        pow10(37) == 10000000000000000000000000000000000000int,
        pow10(38) == 100000000000000000000000000000000000000int,
{
    lemma_pow10_pos(n);
    lemma_pow10_mono(n, 38);
    reveal_with_fuel(pow10, 39);
}

proof fn lemma_pow10_mono(a: nat, b: nat)
    requires
        a <= b,
    ensures
        pow10(a) <= pow10(b),
    decreases b,
{
    if a < b {
        lemma_pow10_mono(a, (b - 1) as nat);
        lemma_pow10_pos((b - 1) as nat);
        assert(pow10(b) == 10 * pow10((b - 1) as nat));
    }
}

proof fn lemma_pow10_pos(n: nat)
    ensures
        pow10(n) >= 1,
    decreases n,
{
    if n > 0 {
        lemma_pow10_pos((n - 1) as nat);
    }
}

proof fn lemma_pow10_grows(n: nat)
    requires
        n >= 39,
    ensures
        pow10(n) > u128::MAX,
    decreases n,
{
    lemma_pow10_pos(n);
    if n > 39 {
        lemma_pow10_grows((n - 1) as nat);
    } else {
        reveal_with_fuel(pow10, 40);
    }
}

fn rational_or_zero_of(s: &str) -> (r: (i128, u128))
    ensures
        r.0 as int == rational_or_zero(s@).0,
        r.1 as int == rational_or_zero(s@).1,
{
    match parse_rational(s) {
        Some(p) => p,
        None => (0, 1),
    }
}

/// `a <= b` as rationals (see [`rational_le_spec`]).
pub fn rational_le(a: &str, b: &str) -> (r: bool)
    ensures
        r == rational_le_spec(a@, b@),
{
    let (na, da) = rational_or_zero_of(a);
    let (nb, db) = rational_or_zero_of(b);
    if da > i128::MAX as u128 || db > i128::MAX as u128 {
        return false;
    }
    match (na.checked_mul(db as i128), nb.checked_mul(da as i128)) {
        (Some(x), Some(y)) => x <= y,
        _ => false,
    }
}

/// `a == b` as rationals (see [`rational_eq_spec`]).
pub fn rational_eq(a: &str, b: &str) -> (r: bool)
    ensures
        r == rational_eq_spec(a@, b@),
{
    let (na, da) = rational_or_zero_of(a);
    let (nb, db) = rational_or_zero_of(b);
    if da > i128::MAX as u128 || db > i128::MAX as u128 {
        return false;
    }
    match (na.checked_mul(db as i128), nb.checked_mul(da as i128)) {
        (Some(x), Some(y)) => x == y,
        _ => false,
    }
}

/// The smaller of two rational texts by [`rational_le`], the first where `a <= b`.
pub fn rational_min(a: &str, b: &str) -> (r: String)
    ensures
        r@ == if rational_le_spec(a@, b@) { a@ } else { b@ },
{
    if rational_le(a, b) {
        a.to_string()
    } else {
        b.to_string()
    }
}

} // verus!
