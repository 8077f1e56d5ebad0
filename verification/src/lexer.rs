use vstd::prelude::*;
use crate::text::{is_scalar_value, chars_of, push_range, push_str, string_from_range, push_decimal, decimal_text};
use crate::token::{Token, keyword_of, lookup_keyword, keyword_spelling, punct_spelling, lemma_keyword_spelling_round_trip};

verus! {

// ===== character classes of the token grammar =====

pub open spec fn is_ident_start(c: char) -> bool {
    (0x61 <= c as u32 <= 0x7A) || (0x41 <= c as u32 <= 0x5A) || c == '_'
}

pub open spec fn is_ident_char(c: char) -> bool {
    is_ident_start(c) || is_digit(c)
}

pub open spec fn is_digit(c: char) -> bool {
    0x30 <= c as u32 <= 0x39
}

pub open spec fn is_space(c: char) -> bool {
    c == ' ' || c == '\t' || c == '\n' || c == '\r'
}

/// First index at or after `i` whose character is not an identifier character.
pub open spec fn ident_run_end(s: Seq<char>, i: int) -> int
    decreases s.len() - i,
{
    if i < 0 || i >= s.len() || !is_ident_char(s[i]) { i } else { ident_run_end(s, i + 1) }
}

/// First index at or after `i` whose character is not a decimal digit.
pub open spec fn digit_run_end(s: Seq<char>, i: int) -> int
    decreases s.len() - i,
{
    if i < 0 || i >= s.len() || !is_digit(s[i]) { i } else { digit_run_end(s, i + 1) }
}

/// First index at or after `i` whose character is not white space.
pub open spec fn space_run_end(s: Seq<char>, i: int) -> int
    decreases s.len() - i,
{
    if i < 0 || i >= s.len() || !is_space(s[i]) { i } else { space_run_end(s, i + 1) }
}

/// First index at or after `i` that holds a line feed, or the end of the input.
pub open spec fn line_end(s: Seq<char>, i: int) -> int
    decreases s.len() - i,
{
    if i < 0 || i >= s.len() || s[i] == '\n' { i } else { line_end(s, i + 1) }
}

/// End of a block comment whose body starts at `j` (just after the opening `/*`): the body is
/// made of characters other than `*` and of `*` followed by a character other than `/`, and the
/// comment closes with `*/`. `None` where the input ends first.
pub open spec fn block_comment_end(s: Seq<char>, j: int) -> Option<int>
    decreases s.len() - j,
{
    if j < 0 || j >= s.len() {
        None
    } else if s[j] == '*' {
        if j + 1 >= s.len() {
            None
        } else if s[j + 1] == '/' {
            Some(j + 2)
        } else {
            block_comment_end(s, j + 2)
        }
    } else {
        block_comment_end(s, j + 1)
    }
}

/// End of a string literal whose contents start at `j` (just after the opening quote): any
/// character but `"` and `\`, or one of the escapes `\n \r \t \0 \" \\`, up to the closing quote.
pub open spec fn string_end(s: Seq<char>, j: int) -> Option<int>
    decreases s.len() - j,
{
    if j < 0 || j >= s.len() {
        None
    } else if s[j] == '"' {
        Some(j + 1)
    } else if s[j] == '\\' {
        if j + 1 < s.len() && is_simple_escape(s[j + 1]) {
            string_end(s, j + 2)
        } else {
            None
        }
    } else {
        string_end(s, j + 1)
    }
}

pub open spec fn is_simple_escape(c: char) -> bool {
    c == 'n' || c == 'r' || c == 't' || c == '0' || c == '"' || c == '\\'
}

/// End of an exponent part `[eE][+-]?[0-9]+` starting at `k`, if there is one.
pub open spec fn exponent_end(s: Seq<char>, k: int) -> Option<int> {
    if 0 <= k < s.len() && (s[k] == 'e' || s[k] == 'E') {
        let d = if k + 1 < s.len() && (s[k + 1] == '+' || s[k + 1] == '-') { k + 2 } else { k + 1 };
        if d < s.len() && is_digit(s[d]) { Some(digit_run_end(s, d)) } else { None }
    } else {
        None
    }
}

/// The longest number at `i` (which holds a digit): `[0-9]+\.[0-9]+(exponent)?`,
/// `[0-9]+(exponent)` or `[0-9]+`.
pub open spec fn number_at(s: Seq<char>, i: int) -> (Token, int) {
    let d = digit_run_end(s, i);
    if d + 1 < s.len() && s[d] == '.' && is_digit(s[d + 1]) {
        let f = digit_run_end(s, d + 1);
        match exponent_end(s, f) {
            Some(e) => (Token::Float, e),
            None => (Token::Float, f),
        }
    } else {
        match exponent_end(s, d) {
            Some(e) => (Token::Float, e),
            None => (Token::Integer, d),
        }
    }
}

/// An operator or delimiter at `i`, the two-character form where the next character allows it.
pub open spec fn punct_at(s: Seq<char>, i: int) -> Option<(Token, int)> {
    let c = s[i];
    let n = if i + 1 < s.len() { s[i + 1] } else { ' ' };
    if c == '+' {
        Some(if n == '=' { (Token::PlusEq, i + 2) } else { (Token::Plus, i + 1) })
    } else if c == '-' {
        Some(if n == '=' { (Token::MinusEq, i + 2) } else if n == '>' { (Token::Arrow, i + 2) } else { (Token::Minus, i + 1) })
    } else if c == '*' {
        Some(if n == '=' { (Token::StarEq, i + 2) } else { (Token::Star, i + 1) })
    } else if c == '/' {
        Some(if n == '=' { (Token::SlashEq, i + 2) } else { (Token::Slash, i + 1) })
    } else if c == '%' {
        Some(if n == '=' { (Token::PercentEq, i + 2) } else { (Token::Percent, i + 1) })
    } else if c == '=' {
        Some(if n == '=' { (Token::EqEq, i + 2) } else if n == '>' { (Token::FatArrow, i + 2) } else { (Token::Eq, i + 1) })
    } else if c == '!' {
        Some(if n == '=' { (Token::Neq, i + 2) } else { (Token::Bang, i + 1) })
    } else if c == '<' {
        Some(if n == '=' { (Token::Le, i + 2) } else { (Token::Lt, i + 1) })
    } else if c == '>' {
        Some(if n == '=' { (Token::Ge, i + 2) } else { (Token::Gt, i + 1) })
    } else if c == '&' {
        Some(if n == '&' { (Token::And, i + 2) } else { (Token::Amp, i + 1) })
    } else if c == '|' {
        Some(if n == '|' { (Token::Or, i + 2) } else { (Token::Pipe, i + 1) })
    } else if c == '.' {
        Some(if n == '.' { (Token::Range, i + 2) } else { (Token::Dot, i + 1) })
    } else if c == ':' {
        Some(if n == ':' { (Token::PathSep, i + 2) } else { (Token::Colon, i + 1) })
    } else if c == '?' {
        Some((Token::Question, i + 1))
    } else if c == '{' {
        Some((Token::LBrace, i + 1))
    } else if c == '}' {
        Some((Token::RBrace, i + 1))
    } else if c == '[' {
        Some((Token::LBracket, i + 1))
    } else if c == ']' {
        Some((Token::RBracket, i + 1))
    } else if c == '(' {
        Some((Token::LParen, i + 1))
    } else if c == ')' {
        Some((Token::RParen, i + 1))
    } else if c == ';' {
        Some((Token::Semicolon, i + 1))
    } else if c == ',' {
        Some((Token::Comma, i + 1))
    } else if c == '#' {
        Some((Token::Pound, i + 1))
    } else {
        None
    }
}

/// What the longest match of the token grammar at `i` is.
pub enum Scan {
    /// trivia (white space or a comment) up to the given index
    Skip(int),
    /// a token up to the given index
    Emit(Token, int),
    /// no token of the grammar starts here
    Fail,
}

/// The longest match at index `i < s.len()`: white space; a line comment (`//`, `///`); a
/// closed block comment; a keyword or identifier; a number; a string literal; an operator or
/// delimiter. Keywords win over identifiers of the same spelling.
pub open spec fn scan_at(s: Seq<char>, i: int) -> Scan {
    let c = s[i];
    let n = if i + 1 < s.len() { s[i + 1] } else { ' ' };
    if is_space(c) {
        Scan::Skip(space_run_end(s, i))
    } else if c == '/' && n == '/' {
        Scan::Skip(line_end(s, i))
    } else if c == '/' && n == '*' && block_comment_end(s, i + 2) is Some {
        Scan::Skip(block_comment_end(s, i + 2)->Some_0)
    } else if is_ident_start(c) {
        let e = ident_run_end(s, i);
        match keyword_of(s.subrange(i, e)) {
            Some(t) => Scan::Emit(t, e),
            None => Scan::Emit(Token::Ident, e),
        }
    } else if is_digit(c) {
        let (t, e) = number_at(s, i);
        Scan::Emit(t, e)
    } else if c == '"' {
        match string_end(s, i + 1) {
            Some(e) => Scan::Emit(Token::String, e),
            None => Scan::Fail,
        }
    } else {
        match punct_at(s, i) {
            Some((t, e)) => Scan::Emit(t, e),
            None => Scan::Fail,
        }
    }
}

/// A word of identifier characters runs to the end of the text.
proof fn lemma_ident_run_to_end(s: Seq<char>, i: int)
    requires
        0 <= i <= s.len(),
        forall|k: int| i <= k < s.len() ==> is_ident_char(#[trigger] s[k]),
    ensures
        ident_run_end(s, i) == s.len(),
    decreases s.len() - i,
{
    if i < s.len() {
        lemma_ident_run_to_end(s, i + 1);
    }
}

/// A keyword is a word: it starts with a letter and holds identifier characters only.
proof fn lemma_keyword_is_word(w: Seq<char>)
    requires
        keyword_of(w) is Some,
    ensures
        w.len() > 0,
        is_ident_start(w[0]),
        forall|k: int| 0 <= k < w.len() ==> is_ident_char(#[trigger] w[k]),
{
}

/// A text that scans as one token over its whole length lexes as that one token.
proof fn lemma_single_token_lexes(w: Seq<char>, t: Token)
    requires
        w.len() > 0,
        t != Token::String,
        scan_at(w, 0) == Scan::Emit(t, w.len() as int),
    ensures
        lex(w) == Ok::<Seq<(Token, Seq<char>)>, int>(seq![(t, w)]),
{
    assert(lex_from(w, w.len() as int, t == Token::Bytes) == Ok::<Seq<(Token, Seq<char>)>, int>(seq![]));
    assert(w.subrange(0, w.len() as int) =~= w);
    assert(seq![(t, w)] + Seq::<(Token, Seq<char>)>::empty() =~= seq![(t, w)]);
}

/// Each keyword of the token table, written alone, lexes as its own token over its whole
/// spelling (and not as a name).
pub proof fn lemma_keyword_lexes_as_itself(t: Token)
    ensures
        keyword_spelling(t) matches Some(w) ==> scan_at(w, 0) == Scan::Emit(t, w.len() as int),
        keyword_spelling(t) matches Some(w) ==> lex(w) == Ok::<Seq<(Token, Seq<char>)>, int>(seq![(t, w)]),
{
    if let Some(w) = keyword_spelling(t) {
        lemma_keyword_spelling_round_trip(t, w);
        lemma_keyword_is_word(w);
        lemma_ident_run_to_end(w, 0);
        assert(w.subrange(0, w.len() as int) =~= w);
        lemma_single_token_lexes(w, t);
    }
}

/// A run of digits runs to the end of the text.
proof fn lemma_digit_run_to_end(s: Seq<char>, i: int)
    requires
        0 <= i <= s.len(),
        forall|k: int| i <= k < s.len() ==> is_digit(#[trigger] s[k]),
    ensures
        digit_run_end(s, i) == s.len(),
    decreases s.len() - i,
{
    if i < s.len() {
        lemma_digit_run_to_end(s, i + 1);
    }
}

/// A word that is not a keyword lexes as one name: a letter or `_` followed by letters,
/// digits and `_`.
pub proof fn lemma_name_lexes_as_ident(w: Seq<char>)
    requires
        w.len() > 0,
        is_ident_start(w[0]),
        forall|k: int| 0 <= k < w.len() ==> is_ident_char(#[trigger] w[k]),
        keyword_of(w) is None,
    ensures
        lex(w) == Ok::<Seq<(Token, Seq<char>)>, int>(seq![(Token::Ident, w)]),
{
    lemma_ident_run_to_end(w, 0);
    assert(w.subrange(0, w.len() as int) =~= w);
    lemma_single_token_lexes(w, Token::Ident);
}

/// A run of decimal digits lexes as one integer literal.
pub proof fn lemma_digits_lex_as_integer(w: Seq<char>)
    requires
        w.len() > 0,
        forall|k: int| 0 <= k < w.len() ==> is_digit(#[trigger] w[k]),
    ensures
        lex(w) == Ok::<Seq<(Token, Seq<char>)>, int>(seq![(Token::Integer, w)]),
{
    lemma_digit_run_to_end(w, 0);
    assert(is_digit(w[0]));
    lemma_single_token_lexes(w, Token::Integer);
}

/// Each operator and delimiter, written alone, lexes as its own token over its whole
/// spelling.
pub proof fn lemma_punct_lexes_as_itself(t: Token)
    ensures
        punct_spelling(t) matches Some(w) ==> scan_at(w, 0) == Scan::Emit(t, w.len() as int),
        punct_spelling(t) matches Some(w) ==> lex(w) == Ok::<Seq<(Token, Seq<char>)>, int>(seq![(t, w)]),
{
    lemma_punct_scan(t);
    if let Some(w) = punct_spelling(t) {
        lemma_single_token_lexes(w, t);
    }
}

proof fn lemma_punct_scan(t: Token)
    ensures
        punct_spelling(t) matches Some(w) ==> w.len() > 0 && scan_at(w, 0) == Scan::Emit(t, w.len() as int),
{
    match t {
        Token::Plus => { reveal_strlit("+"); },
        Token::Minus => { reveal_strlit("-"); },
        Token::Star => { reveal_strlit("*"); },
        Token::Slash => { reveal_strlit("/"); },
        Token::Percent => { reveal_strlit("%"); },
        Token::Eq => { reveal_strlit("="); },
        Token::EqEq => { reveal_strlit("=="); },
        Token::PlusEq => { reveal_strlit("+="); },
        Token::MinusEq => { reveal_strlit("-="); },
        Token::StarEq => { reveal_strlit("*="); },
        Token::SlashEq => { reveal_strlit("/="); },
        Token::PercentEq => { reveal_strlit("%="); },
        Token::Neq => { reveal_strlit("!="); },
        Token::Lt => { reveal_strlit("<"); },
        Token::Gt => { reveal_strlit(">"); },
        Token::Le => { reveal_strlit("<="); },
        Token::Ge => { reveal_strlit(">="); },
        Token::And => { reveal_strlit("&&"); },
        Token::Or => { reveal_strlit("||"); },
        Token::Bang => { reveal_strlit("!"); },
        Token::Pipe => { reveal_strlit("|"); },
        Token::Amp => { reveal_strlit("&"); },
        Token::Question => { reveal_strlit("?"); },
        Token::Arrow => { reveal_strlit("->"); },
        Token::FatArrow => { reveal_strlit("=>"); },
        Token::Range => { reveal_strlit(".."); },
        Token::PathSep => { reveal_strlit("::"); },
        Token::LBrace => { reveal_strlit("{"); },
        Token::RBrace => { reveal_strlit("}"); },
        Token::LBracket => { reveal_strlit("["); },
        Token::RBracket => { reveal_strlit("]"); },
        Token::LParen => { reveal_strlit("("); },
        Token::RParen => { reveal_strlit(")"); },
        Token::Colon => { reveal_strlit(":"); },
        Token::Semicolon => { reveal_strlit(";"); },
        Token::Comma => { reveal_strlit(","); },
        Token::Dot => { reveal_strlit("."); },
        Token::Pound => { reveal_strlit("#"); },
        _ => {},
    }
}

} // verus!

verus! {

// ===== escapes inside string literal contents =====

pub open spec fn is_hex_digit(c: char) -> bool {
    is_digit(c) || (0x61 <= c as u32 <= 0x66) || (0x41 <= c as u32 <= 0x46)
}

pub open spec fn hex_digit_value(c: char) -> int {
    if is_digit(c) {
        c as u32 - 0x30
    } else if 0x61 <= c as u32 <= 0x66 {
        c as u32 - 0x61 + 10
    } else {
        c as u32 - 0x41 + 10
    }
}

pub open spec fn all_hex(d: Seq<char>) -> bool {
    forall|k: int| 0 <= k < d.len() ==> is_hex_digit(#[trigger] d[k])
}

/// The number that the hexadecimal digits `d` spell, most significant first.
pub open spec fn hex_value(d: Seq<char>) -> int
    decreases d.len(),
{
    if d.len() == 0 { 0 } else { hex_value(d.drop_last()) * 16 + hex_digit_value(d.last()) }
}

/// What `from_str_radix(h, 16)` gives for an unsigned type wide enough for the digits: an
/// optional leading `+`, then one or more hexadecimal digits.
pub open spec fn parse_hex(h: Seq<char>) -> Option<int> {
    if h.len() == 0 {
        None
    } else if h[0] == '+' {
        if h.len() >= 2 && all_hex(h.drop_first()) { Some(hex_value(h.drop_first())) } else { None }
    } else if all_hex(h) {
        Some(hex_value(h))
    } else {
        None
    }
}

/// Number of bytes of the UTF-8 encoding of a character.
pub open spec fn utf8_width(c: char) -> int {
    if (c as u32) < 0x80 { 1 } else if (c as u32) < 0x800 { 2 } else if (c as u32) < 0x10000 { 3 } else { 4 }
}

/// Number of bytes of the UTF-8 encoding of a character sequence.
pub open spec fn utf8_len(s: Seq<char>) -> int
    decreases s.len(),
{
    if s.len() == 0 { 0 } else { utf8_len(s.drop_last()) + utf8_width(s.last()) }
}

/// Index of the first `}` at or after `j`, or the end of the input.
pub open spec fn close_brace_index(s: Seq<char>, j: int) -> int
    decreases s.len() - j,
{
    if j < 0 || j >= s.len() || s[j] == '}' { j } else { close_brace_index(s, j + 1) }
}

/// One step of unescaping at index `i` (which holds a backslash): the characters it puts out
/// and the index where unescaping goes on.
pub open spec fn escape_step(s: Seq<char>, i: int) -> (Seq<char>, int) {
    if i + 1 >= s.len() {
        (seq!['\\'], i + 1)
    } else {
        let c = s[i + 1];
        let j = i + 2;
        if c == 'n' {
            (seq!['\n'], j)
        } else if c == 'r' {
            (seq!['\r'], j)
        } else if c == 't' {
            (seq!['\t'], j)
        } else if c == '\\' {
            (seq!['\\'], j)
        } else if c == '"' {
            (seq!['"'], j)
        } else if c == '\'' {
            (seq!['\''], j)
        } else if c == '0' {
            (seq!['\0'], j)
        } else if c == 'x' {
            let k = if j + 2 <= s.len() { j + 2 } else { s.len() as int };
            let h = s.subrange(j, k);
            if utf8_len(h) == 2 {
                match parse_hex(h) {
                    Some(b) => (seq![b as char], k),
                    None => (seq!['\\', 'x'] + h, k),
                }
            } else {
                (seq!['\\', 'x'], k)
            }
        } else if c == 'u' {
            if j < s.len() && s[j] == '{' {
                let k = close_brace_index(s, j + 1);
                let h = s.subrange(j + 1, k);
                let next = if k < s.len() { k + 1 } else { k };
                let kept = seq!['\\', 'u', '{'] + h + seq!['}'];
                if h.len() > 0 && utf8_len(h) <= 6 {
                    match parse_hex(h) {
                        Some(v) => if is_scalar_value(v) { (seq![v as char], next) } else { (kept, next) },
                        None => (kept, next),
                    }
                } else {
                    (kept, next)
                }
            } else {
                (seq!['\\', 'u'], if j < s.len() { j + 1 } else { j })
            }
        } else {
            (seq!['\\', c], j)
        }
    }
}

/// The unescaped text of `s` from index `i` on.
pub open spec fn unescape_from(s: Seq<char>, i: int) -> Seq<char>
    decreases s.len() - i,
{
    if i < 0 || i >= s.len() {
        seq![]
    } else if s[i] != '\\' {
        seq![s[i]] + unescape_from(s, i + 1)
    } else {
        let (out, next) = escape_step(s, i);
        if i < next <= s.len() { out + unescape_from(s, next) } else { out }
    }
}

/// The unescaped text of string literal contents.
pub open spec fn unescape(s: Seq<char>) -> Seq<char> {
    unescape_from(s, 0)
}

} // verus!

verus! {

pub fn char_is_digit(c: char) -> (r: bool)
    ensures
        r == is_digit(c),
{
    let u = c as u32;
    0x30 <= u && u <= 0x39
}

pub fn char_is_ident_start(c: char) -> (r: bool)
    ensures
        r == is_ident_start(c),
{
    let u = c as u32;
    (0x61 <= u && u <= 0x7A) || (0x41 <= u && u <= 0x5A) || c == '_'
}

pub fn char_is_ident_char(c: char) -> (r: bool)
    ensures
        r == is_ident_char(c),
{
    char_is_ident_start(c) || char_is_digit(c)
}

pub fn char_is_space(c: char) -> (r: bool)
    ensures
        r == is_space(c),
{
    c == ' ' || c == '\t' || c == '\n' || c == '\r'
}

fn hex_digit_of(c: char) -> (r: Option<u32>)
    ensures
        r is Some <==> is_hex_digit(c),
        r matches Some(v) ==> v == hex_digit_value(c) && v < 16,
{
    let u = c as u32;
    if 0x30 <= u && u <= 0x39 {
        Some(u - 0x30)
    } else if 0x61 <= u && u <= 0x66 {
        Some(u - 0x61 + 10)
    } else if 0x41 <= u && u <= 0x46 {
        Some(u - 0x41 + 10)
    } else {
        None
    }
}

spec fn pow16(n: nat) -> int
    decreases n,
{
    if n == 0 { 1 } else { 16 * pow16((n - 1) as nat) }
}

proof fn lemma_pow16_pos(n: nat)
    ensures
        pow16(n) > 0,
    decreases n,
{
    if n > 0 {
        lemma_pow16_pos((n - 1) as nat);
    }
}

proof fn lemma_pow16_monotone(a: nat, b: nat)
    requires
        a <= b,
    ensures
        0 < pow16(a) <= pow16(b),
    decreases b,
{
    lemma_pow16_pos(a);
    lemma_pow16_pos(b);
    if a < b {
        lemma_pow16_monotone(a, (b - 1) as nat);
    }
}

proof fn lemma_hex_value_bound(d: Seq<char>)
    requires
        all_hex(d),
    ensures
        0 <= hex_value(d) < pow16(d.len()),
    decreases d.len(),
{
    if d.len() > 0 {
        assert(all_hex(d.drop_last()));
        lemma_hex_value_bound(d.drop_last());
        assert(is_hex_digit(d[d.len() - 1]));
        let p = pow16((d.len() - 1) as nat);
        assert(pow16(d.len()) == 16 * p);
        assert(hex_value(d.drop_last()) * 16 + 15 < 16 * p) by (nonlinear_arith)
            requires
                hex_value(d.drop_last()) < p,
                0 <= hex_value(d.drop_last()),
        ;
    }
}

/// Value of the hexadecimal digits `v[start..end]` (at most six).
fn hex_digits_value(v: &Vec<char>, start: usize, end: usize) -> (r: Option<u32>)
    requires
        start <= end <= v.len(),
        end - start <= 6,
    ensures
        r is Some <==> all_hex(v@.subrange(start as int, end as int)),
        r matches Some(x) ==> x == hex_value(v@.subrange(start as int, end as int)),
{
    let ghost d = v@.subrange(start as int, end as int);
    let mut acc: u32 = 0;
    let mut k = start;
    while k < end
        invariant
            start <= k <= end <= v.len(),
            end - start <= 6,
            d == v@.subrange(start as int, end as int),
            all_hex(v@.subrange(start as int, k as int)),
            acc == hex_value(v@.subrange(start as int, k as int)),
        decreases end - k,
    {
        let ghost pre = v@.subrange(start as int, k as int);
        let ghost post = v@.subrange(start as int, k + 1);
        assert(post.drop_last() == pre);
        match hex_digit_of(v[k]) {
            None => {
                assert(d[k - start] == v@[k as int]);
                return None;
            },
            Some(x) => {
                proof {
                    assert forall|j: int| 0 <= j < post.len() implies is_hex_digit(#[trigger] post[j]) by {
                        if j < pre.len() {
                            assert(post[j] == pre[j]);
                        }
                    }
                    lemma_hex_value_bound(pre);
                    lemma_pow16_monotone(pre.len(), 5);
                    reveal_with_fuel(pow16, 6);
                }
                acc = acc * 16 + x;
                k += 1;
            },
        }
    }
    assert(v@.subrange(start as int, k as int) == d);
    Some(acc)
}

fn char_width(c: char) -> (w: usize)
    ensures
        w == utf8_width(c),
{
    let u = c as u32;
    if u < 0x80 {
        1
    } else if u < 0x800 {
        2
    } else if u < 0x10000 {
        3
    } else {
        4
    }
}

proof fn lemma_utf8_len_snoc(s: Seq<char>, start: int, k: int)
    requires
        0 <= start <= k < s.len(),
    ensures
        utf8_len(s.subrange(start, k + 1)) == utf8_len(s.subrange(start, k)) + utf8_width(s[k]),
{
    assert(s.subrange(start, k + 1).drop_last() == s.subrange(start, k));
}

proof fn lemma_utf8_len_monotone(s: Seq<char>, start: int, k: int, m: int)
    requires
        0 <= start <= k <= m <= s.len(),
    ensures
        utf8_len(s.subrange(start, k)) <= utf8_len(s.subrange(start, m)),
    decreases m - k,
{
    if k < m {
        lemma_utf8_len_snoc(s, start, m - 1);
        lemma_utf8_len_monotone(s, start, k, m - 1);
    }
}

proof fn lemma_utf8_len_lower(s: Seq<char>, start: int, k: int)
    requires
        0 <= start <= k <= s.len(),
    ensures
        utf8_len(s.subrange(start, k)) >= k - start,
    decreases k - start,
{
    if k > start {
        lemma_utf8_len_snoc(s, start, k - 1);
        lemma_utf8_len_lower(s, start, k - 1);
    }
}

/// Whether the UTF-8 encoding of `v[start..end]` is at most `limit` bytes long.
fn utf8_len_at_most(v: &Vec<char>, start: usize, end: usize, limit: usize) -> (r: bool)
    requires
        start <= end <= v.len(),
        limit <= 8,
    ensures
        r == (utf8_len(v@.subrange(start as int, end as int)) <= limit),
{
    let mut total: usize = 0;
    let mut k = start;
    while k < end
        invariant
            start <= k <= end <= v.len(),
            limit <= 8,
            total == utf8_len(v@.subrange(start as int, k as int)),
            total <= limit,
        decreases end - k,
    {
        proof { lemma_utf8_len_snoc(v@, start as int, k as int); }
        let w = char_width(v[k]);
        if total + w > limit {
            proof { lemma_utf8_len_monotone(v@, start as int, (k + 1) as int, end as int); }
            return false;
        }
        total = total + w;
        k += 1;
    }
    true
}

/// Index of the first `}` at or after `j` in `v`, or `v.len()`.
fn find_close_brace(v: &Vec<char>, j: usize) -> (k: usize)
    requires
        j <= v.len(),
    ensures
        k == close_brace_index(v@, j as int),
        j <= k <= v.len(),
{
    let mut k = j;
    while k < v.len() && v[k] != '}'
        invariant
            j <= k <= v.len(),
            close_brace_index(v@, j as int) == close_brace_index(v@, k as int),
        decreases v.len() - k,
    {
        k += 1;
    }
    k
}

/// Puts out one escape sequence starting at the backslash `v[i]`; returns where to go on.
fn unescape_step(v: &Vec<char>, i: usize, out: &mut String) -> (next: usize)
    requires
        i < v.len(),
        v@[i as int] == '\\',
    ensures
        final(out)@ == old(out)@ + escape_step(v@, i as int).0,
        next == escape_step(v@, i as int).1,
        i < next <= v.len(),
{
    let n = v.len();
    if i + 1 >= n {
        out.push('\\');
        return i + 1;
    }
    let c = v[i + 1];
    let j = i + 2;
    if c == 'n' {
        out.push('\n');
        j
    } else if c == 'r' {
        out.push('\r');
        j
    } else if c == 't' {
        out.push('\t');
        j
    } else if c == '\\' {
        out.push('\\');
        j
    } else if c == '"' {
        out.push('"');
        j
    } else if c == '\'' {
        out.push('\'');
        j
    } else if c == '0' {
        out.push('\0');
        j
    } else if c == 'x' {
        let k = if n - j >= 2 { j + 2 } else { n };
        let ghost h = v@.subrange(j as int, k as int);
        let two = utf8_len_at_most(v, j, k, 2);
        let one = utf8_len_at_most(v, j, k, 1);
        if two && !one {
            match hex_digits_value(v, j, k) {
                Some(b) => {
                    proof {
                        assert(h.len() >= 1);
                        if h[0] == '+' {
                            assert(!is_hex_digit('+'));
                        }
                        lemma_hex_value_bound(h);
                        lemma_pow16_monotone(h.len(), 2);
                        reveal_with_fuel(pow16, 3);
                    }
                    let r = char::from_u32(b);
                    let ch = r.unwrap();
                    assert(ch as u32 == b);
                    proof { vstd::utf8::char_u32_cast(ch, b); }
                    assert(ch == (b as int) as char);
                    out.push(ch);
                },
                None => {
                    if k - j == 2 && v[j] == '+' {
                        match hex_digits_value(v, j + 1, k) {
                            Some(b) => {
                                assert(h.drop_first() == v@.subrange(j + 1, k as int));
                                proof {
                                    lemma_hex_value_bound(h.drop_first());
                                    reveal_with_fuel(pow16, 2);
                                }
                                let r = char::from_u32(b);
                                let ch = r.unwrap();
                                assert(ch as u32 == b);
                                proof { vstd::utf8::char_u32_cast(ch, b); }
                    assert(ch == (b as int) as char);
                                out.push(ch);
                            },
                            None => {
                                assert(h.drop_first() == v@.subrange(j + 1, k as int));
                                out.push('\\');
                                out.push('x');
                                push_range(out, v, j, k);
                            },
                        }
                    } else {
                        proof {
                            if h.len() >= 2 && h[0] == '+' {
                                assert(false);
                            }
                        }
                        out.push('\\');
                        out.push('x');
                        push_range(out, v, j, k);
                    }
                },
            }
        } else {
            out.push('\\');
            out.push('x');
        }
        k
    } else if c == 'u' {
        if j < n && v[j] == '{' {
            let k = find_close_brace(v, j + 1);
            let ghost h = v@.subrange(j + 1, k as int);
            let next = if k < n { k + 1 } else { k };
            let small = k > j + 1 && utf8_len_at_most(v, j + 1, k, 6);
            if small {
                proof { lemma_utf8_len_lower(v@, (j + 1) as int, k as int); }
                let mut parsed: Option<u32> = None;
                if v[j + 1] == '+' {
                    if k - (j + 1) >= 2 {
                        assert(h.drop_first() == v@.subrange(j + 2, k as int));
                        parsed = hex_digits_value(v, j + 2, k);
                    }
                } else {
                    parsed = hex_digits_value(v, j + 1, k);
                }
                proof {
                    if v@[j + 1] != '+' && h[0] == '+' {
                        assert(false);
                    }
                    if v@[j + 1] == '+' {
                        assert(h[0] == '+');
                    }
                }
                match parsed {
                    Some(x) => {
                        match char::from_u32(x) {
                            Some(ch) => {
                                out.push(ch);
                                proof { vstd::utf8::char_u32_cast(ch, x); }
                                assert(seq![ch] == seq![(x as int) as char]);
                            },
                            None => {
                                out.push('\\');
                                out.push('u');
                                out.push('{');
                                push_range(out, v, j + 1, k);
                                out.push('}');
                            },
                        }
                    },
                    None => {
                        out.push('\\');
                        out.push('u');
                        out.push('{');
                        push_range(out, v, j + 1, k);
                        out.push('}');
                    },
                }
            } else {
                out.push('\\');
                out.push('u');
                out.push('{');
                push_range(out, v, j + 1, k);
                out.push('}');
            }
            next
        } else {
            out.push('\\');
            out.push('u');
            if j < n { j + 1 } else { j }
        }
    } else {
        out.push('\\');
        out.push(c);
        j
    }
}

/// Unescapes the contents of a string literal: `\n \r \t \\ \" \' \0`, `\xNN` (two hexadecimal
/// digits) and `\u{...}` (one to six bytes of hexadecimal digits naming a scalar value); an
/// escape that cannot be read is kept as written, as the escape rules of `escape_step` say.
pub fn unescape_string(s: &str) -> (r: String)
    ensures
        r@ == unescape(s@),
{
    let v = chars_of(s);
    unescape_chars(&v)
}

/// `unescape_string` on a character vector.
pub fn unescape_chars(v: &Vec<char>) -> (r: String)
    ensures
        r@ == unescape(v@),
{
    let n = v.len();
    let mut out = String::new();
    let mut i: usize = 0;
    while i < n
        invariant
            i <= n == v.len(),
            out@ + unescape_from(v@, i as int) == unescape(v@),
        decreases n - i,
    {
        let ghost old_out = out@;
        if v[i] != '\\' {
            out.push(v[i]);
            i += 1;
            assert(old_out + unescape_from(v@, (i - 1) as int) == out@ + unescape_from(v@, i as int));
        } else {
            let ghost oi = i;
            let next = unescape_step(v, i, &mut out);
            i = next;
            assert(old_out + unescape_from(v@, oi as int) == out@ + unescape_from(v@, i as int));
        }
    }
    assert(out@ + unescape_from(v@, i as int) == out@);
    out
}

} // verus!

verus! {

// ===== scanning one lexeme =====

/// One lexeme found by `scan`.
pub enum Lexeme {
    Skip(usize),
    Emit(Token, usize),
    Fail,
}

pub open spec fn lexeme_agrees(r: Lexeme, s: Seq<char>, i: int) -> bool {
    match r {
        Lexeme::Skip(e) => scan_at(s, i) == Scan::Skip(e as int) && i < e <= s.len(),
        Lexeme::Emit(t, e) => scan_at(s, i) == Scan::Emit(t, e as int) && i < e <= s.len()
            && (t == Token::String ==> i + 2 <= e),
        Lexeme::Fail => scan_at(s, i) == Scan::Fail,
    }
}

fn ident_end(v: &Vec<char>, i: usize) -> (e: usize)
    requires
        i <= v.len(),
    ensures
        e == ident_run_end(v@, i as int),
        i <= e <= v.len(),
{
    let mut j = i;
    while j < v.len() && char_is_ident_char(v[j])
        invariant
            i <= j <= v.len(),
            ident_run_end(v@, i as int) == ident_run_end(v@, j as int),
        decreases v.len() - j,
    {
        j += 1;
    }
    j
}

fn digit_end(v: &Vec<char>, i: usize) -> (e: usize)
    requires
        i <= v.len(),
    ensures
        e == digit_run_end(v@, i as int),
        i <= e <= v.len(),
{
    let mut j = i;
    while j < v.len() && char_is_digit(v[j])
        invariant
            i <= j <= v.len(),
            digit_run_end(v@, i as int) == digit_run_end(v@, j as int),
        decreases v.len() - j,
    {
        j += 1;
    }
    j
}

fn space_end(v: &Vec<char>, i: usize) -> (e: usize)
    requires
        i <= v.len(),
    ensures
        e == space_run_end(v@, i as int),
        i <= e <= v.len(),
{
    let mut j = i;
    while j < v.len() && char_is_space(v[j])
        invariant
            i <= j <= v.len(),
            space_run_end(v@, i as int) == space_run_end(v@, j as int),
        decreases v.len() - j,
    {
        j += 1;
    }
    j
}

fn find_line_end(v: &Vec<char>, i: usize) -> (e: usize)
    requires
        i <= v.len(),
    ensures
        e == line_end(v@, i as int),
        i <= e <= v.len(),
{
    let mut j = i;
    while j < v.len() && v[j] != '\n'
        invariant
            i <= j <= v.len(),
            line_end(v@, i as int) == line_end(v@, j as int),
        decreases v.len() - j,
    {
        j += 1;
    }
    j
}

fn find_block_comment_end(v: &Vec<char>, j0: usize) -> (r: Option<usize>)
    requires
        j0 <= v.len(),
    ensures
        match r {
            Some(e) => block_comment_end(v@, j0 as int) == Some(e as int) && j0 < e <= v.len(),
            None => block_comment_end(v@, j0 as int) is None,
        },
{
    let n = v.len();
    let mut j = j0;
    while j < n
        invariant
            j0 <= j <= n == v.len(),
            block_comment_end(v@, j0 as int) == block_comment_end(v@, j as int),
        decreases n - j,
    {
        if v[j] == '*' {
            if j + 1 >= n {
                return None;
            } else if v[j + 1] == '/' {
                return Some(j + 2);
            } else {
                j = j + 2;
            }
        } else {
            j = j + 1;
        }
    }
    None
}

fn find_string_end(v: &Vec<char>, j0: usize) -> (r: Option<usize>)
    requires
        j0 <= v.len(),
    ensures
        match r {
            Some(e) => string_end(v@, j0 as int) == Some(e as int) && j0 < e <= v.len(),
            None => string_end(v@, j0 as int) is None,
        },
{
    let n = v.len();
    let mut j = j0;
    while j < n
        invariant
            j0 <= j <= n == v.len(),
            string_end(v@, j0 as int) == string_end(v@, j as int),
        decreases n - j,
    {
        let c = v[j];
        if c == '"' {
            return Some(j + 1);
        } else if c == '\\' {
            if j + 1 < n {
                let d = v[j + 1];
                if d == 'n' || d == 'r' || d == 't' || d == '0' || d == '"' || d == '\\' {
                    j = j + 2;
                } else {
                    return None;
                }
            } else {
                return None;
            }
        } else {
            j = j + 1;
        }
    }
    None
}

fn find_exponent_end(v: &Vec<char>, k: usize) -> (r: Option<usize>)
    requires
        k <= v.len(),
    ensures
        match r {
            Some(e) => exponent_end(v@, k as int) == Some(e as int) && k < e <= v.len(),
            None => exponent_end(v@, k as int) is None,
        },
{
    let n = v.len();
    if k < n && (v[k] == 'e' || v[k] == 'E') {
        let d = if k + 1 < n && (v[k + 1] == '+' || v[k + 1] == '-') { k + 2 } else { k + 1 };
        if d < n && char_is_digit(v[d]) {
            Some(digit_end(v, d))
        } else {
            None
        }
    } else {
        None
    }
}

fn scan_number(v: &Vec<char>, i: usize) -> (r: (Token, usize))
    requires
        i < v.len(),
        is_digit(v@[i as int]),
    ensures
        number_at(v@, i as int) == (r.0, r.1 as int),
        i < r.1 <= v.len(),
{
    let n = v.len();
    let d = digit_end(v, i);
    proof {
        assert(digit_run_end(v@, i as int) == digit_run_end(v@, i + 1));
    }
    let d2 = digit_end(v, i + 1);
    if d < n && n - d > 1 && v[d] == '.' && char_is_digit(v[d + 1]) {
        let f = digit_end(v, d + 1);
        match find_exponent_end(v, f) {
            Some(e) => (Token::Float, e),
            None => (Token::Float, f),
        }
    } else {
        match find_exponent_end(v, d) {
            Some(e) => (Token::Float, e),
            None => (Token::Integer, d),
        }
    }
}

fn scan_punct(v: &Vec<char>, i: usize) -> (r: Option<(Token, usize)>)
    requires
        i < v.len(),
    ensures
        match r {
            Some((t, e)) => punct_at(v@, i as int) == Some((t, e as int)) && i < e <= v.len(),
            None => punct_at(v@, i as int) is None,
        },
{
    let c = v[i];
    let two = i + 1 < v.len();
    let nx = if two { v[i + 1] } else { ' ' };
    if c == '+' {
        Some(if nx == '=' { (Token::PlusEq, i + 2) } else { (Token::Plus, i + 1) })
    } else if c == '-' {
        Some(if nx == '=' { (Token::MinusEq, i + 2) } else if nx == '>' { (Token::Arrow, i + 2) } else { (Token::Minus, i + 1) })
    } else if c == '*' {
        Some(if nx == '=' { (Token::StarEq, i + 2) } else { (Token::Star, i + 1) })
    } else if c == '/' {
        Some(if nx == '=' { (Token::SlashEq, i + 2) } else { (Token::Slash, i + 1) })
    } else if c == '%' {
        Some(if nx == '=' { (Token::PercentEq, i + 2) } else { (Token::Percent, i + 1) })
    } else if c == '=' {
        Some(if nx == '=' { (Token::EqEq, i + 2) } else if nx == '>' { (Token::FatArrow, i + 2) } else { (Token::Eq, i + 1) })
    } else if c == '!' {
        Some(if nx == '=' { (Token::Neq, i + 2) } else { (Token::Bang, i + 1) })
    } else if c == '<' {
        Some(if nx == '=' { (Token::Le, i + 2) } else { (Token::Lt, i + 1) })
    } else if c == '>' {
        Some(if nx == '=' { (Token::Ge, i + 2) } else { (Token::Gt, i + 1) })
    } else if c == '&' {
        Some(if nx == '&' { (Token::And, i + 2) } else { (Token::Amp, i + 1) })
    } else if c == '|' {
        Some(if nx == '|' { (Token::Or, i + 2) } else { (Token::Pipe, i + 1) })
    } else if c == '.' {
        Some(if nx == '.' { (Token::Range, i + 2) } else { (Token::Dot, i + 1) })
    } else if c == ':' {
        Some(if nx == ':' { (Token::PathSep, i + 2) } else { (Token::Colon, i + 1) })
    } else if c == '?' {
        Some((Token::Question, i + 1))
    } else if c == '{' {
        Some((Token::LBrace, i + 1))
    } else if c == '}' {
        Some((Token::RBrace, i + 1))
    } else if c == '[' {
        Some((Token::LBracket, i + 1))
    } else if c == ']' {
        Some((Token::RBracket, i + 1))
    } else if c == '(' {
        Some((Token::LParen, i + 1))
    } else if c == ')' {
        Some((Token::RParen, i + 1))
    } else if c == ';' {
        Some((Token::Semicolon, i + 1))
    } else if c == ',' {
        Some((Token::Comma, i + 1))
    } else if c == '#' {
        Some((Token::Pound, i + 1))
    } else {
        None
    }
}

/// Finds the longest match of the token grammar at `v[i]`.
pub fn scan(v: &Vec<char>, i: usize) -> (r: Lexeme)
    requires
        i < v.len(),
    ensures
        lexeme_agrees(r, v@, i as int),
{
    let n = v.len();
    let c = v[i];
    let nx = if i + 1 < n { v[i + 1] } else { ' ' };
    if char_is_space(c) {
        assert(space_run_end(v@, i as int) == space_run_end(v@, i + 1));
        Lexeme::Skip(space_end(v, i + 1))
    } else if c == '/' && nx == '/' {
        assert(line_end(v@, i as int) == line_end(v@, i + 1));
        Lexeme::Skip(find_line_end(v, i + 1))
    } else if c == '/' && nx == '*' && find_block_comment_end(v, i + 2).is_some() {
        match find_block_comment_end(v, i + 2) {
            Some(e) => Lexeme::Skip(e),
            None => Lexeme::Fail,
        }
    } else if char_is_ident_start(c) {
        assert(ident_run_end(v@, i as int) == ident_run_end(v@, i + 1));
        let e = ident_end(v, i + 1);
        match lookup_keyword(v, i, e) {
            Some(t) => Lexeme::Emit(t, e),
            None => Lexeme::Emit(Token::Ident, e),
        }
    } else if char_is_digit(c) {
        let (t, e) = scan_number(v, i);
        Lexeme::Emit(t, e)
    } else if c == '"' {
        match find_string_end(v, i + 1) {
            Some(e) => Lexeme::Emit(Token::String, e),
            None => Lexeme::Fail,
        }
    } else {
        match scan_punct(v, i) {
            Some((t, e)) => Lexeme::Emit(t, e),
            None => Lexeme::Fail,
        }
    }
}

} // verus!

verus! {

// ===== the whole token stream =====

/// The text a token carries: the contents of a string literal, unescaped (left raw where
/// the string follows `bytes`, whose contents the parser decodes); the lexeme itself for
/// every other token.
pub open spec fn lexeme_value(s: Seq<char>, t: Token, i: int, e: int, raw: bool) -> Seq<char> {
    if t == Token::String {
        if raw { s.subrange(i + 1, e - 1) } else { unescape(s.subrange(i + 1, e - 1)) }
    } else {
        s.subrange(i, e)
    }
}

/// The tokens of `s` from index `i` on, trivia dropped; `Err(p)` where no token starts at `p`.
/// `after_bytes` says whether the last token before `i` was `bytes`.
pub open spec fn lex_from(s: Seq<char>, i: int, after_bytes: bool) -> Result<Seq<(Token, Seq<char>)>, int>
    decreases s.len() - i,
{
    if i < 0 || i >= s.len() {
        Ok(seq![])
    } else {
        match scan_at(s, i) {
            Scan::Skip(e) => if i < e <= s.len() { lex_from(s, e, after_bytes) } else { Err(i) },
            Scan::Emit(t, e) => if i < e <= s.len() {
                match lex_from(s, e, t == Token::Bytes) {
                    Ok(rest) => Ok(seq![(t, lexeme_value(s, t, i, e, after_bytes))] + rest),
                    Err(p) => Err(p),
                }
            } else {
                Err(i)
            },
            Scan::Fail => Err(i),
        }
    }
}

/// The tokens of a whole source text.
pub open spec fn lex(s: Seq<char>) -> Result<Seq<(Token, Seq<char>)>, int> {
    lex_from(s, 0, false)
}

/// Tokens with their texts taken by view.
pub open spec fn token_texts(v: Seq<(Token, String)>) -> Seq<(Token, Seq<char>)> {
    v.map_values(|p: (Token, String)| (p.0, p.1@))
}

pub open spec fn prepend_tokens(
    a: Seq<(Token, Seq<char>)>,
    r: Result<Seq<(Token, Seq<char>)>, int>,
) -> Result<Seq<(Token, Seq<char>)>, int> {
    match r {
        Ok(x) => Ok(a + x),
        Err(p) => Err(p),
    }
}

// ===== error reports =====

/// What `format!("{:?}", c)` writes for a character (its quoted, escaped form).
pub uninterp spec fn char_debug_text(c: char) -> Seq<char>;

/// Writes a character the way `{:?}` does, by calling `format!`.
#[verifier::external_body]
fn char_debug(c: char) -> (s: String)
    ensures
        s@ == char_debug_text(c),
{
    format!("{:?}", c)
}

pub open spec fn upper_hex_digit(d: int) -> char {
    if d < 10 { (0x30 + d) as char } else { (0x41 + d - 10) as char }
}

/// Upper-case hexadecimal digits of `v`, without leading zeros.
pub open spec fn upper_hex(v: nat) -> Seq<char>
    decreases v,
{
    if v < 16 { seq![upper_hex_digit(v as int)] } else { upper_hex(v / 16).push(upper_hex_digit((v % 16) as int)) }
}

/// `t` padded with leading zeros to at least four characters.
pub open spec fn pad4(t: Seq<char>) -> Seq<char> {
    if t.len() < 4 { Seq::new((4 - t.len()) as nat, |k: int| '0') + t } else { t }
}

/// The message for a character that starts no token.
pub open spec fn unrecognized_message(c: char) -> Seq<char> {
    "unrecognized character "@ + char_debug_text(c) + " (U+"@ + pad4(upper_hex(c as u32 as nat)) + ")"@
}

/// Line and column (both from 1) just after the text `p`.
pub open spec fn line_col_after(p: Seq<char>) -> (int, int)
    decreases p.len(),
{
    if p.len() == 0 {
        (1, 1)
    } else {
        let (l, c) = line_col_after(p.drop_last());
        if p.last() == '\n' { (l + 1, 1) } else { (l, c + 1) }
    }
}

/// `x`, or `usize::MAX` where `x` is larger.
pub open spec fn clamp_usize(x: int) -> int {
    if x <= usize::MAX { x } else { usize::MAX as int }
}

/// A character that starts no token of the grammar.
#[derive(Debug)]
pub struct LexError {
    pub message: String,
    /// UTF-8 byte offset of the character in the source
    pub byte_offset: usize,
    pub line: usize,
    pub column: usize,
}

impl LexError {
    /// The error as it is shown: `{message} (line {line}, column {column})`.
    pub fn to_string(&self) -> (r: String)
        ensures
            r@ == self.message@ + " (line "@ + decimal_text(self.line as nat) + ", column "@
                + decimal_text(self.column as nat) + ")"@,
    {
        let mut out = String::new();
        push_str(&mut out, self.message.as_str());
        push_str(&mut out, " (line ");
        push_decimal(&mut out, self.line);
        push_str(&mut out, ", column ");
        push_decimal(&mut out, self.column);
        push_str(&mut out, ")");
        out
    }
}

/// The error reported for the character at index `p` of `s`.
pub open spec fn lex_error_fits(e: LexError, s: Seq<char>, p: int) -> bool {
    &&& e.message@ == unrecognized_message(s[p])
    &&& e.byte_offset == clamp_usize(utf8_len(s.take(p)))
    &&& e.line == clamp_usize(line_col_after(s.take(p)).0)
    &&& e.column == clamp_usize(line_col_after(s.take(p)).1)
}

/// Appends `v` in upper-case hexadecimal.
pub(crate) fn push_upper_hex(out: &mut String, v: u32)
    ensures
        final(out)@ == old(out)@ + upper_hex(v as nat),
    decreases v,
{
    if v >= 16 {
        push_upper_hex(out, v / 16);
    }
    let d = v % 16;
    let ch = if d < 10 { char::from_u32(0x30 + d).unwrap() } else { char::from_u32(0x41 + d - 10).unwrap() };
    proof {
        vstd::utf8::char_u32_cast(ch, ch as u32);
    }
    out.push(ch);
    proof {
        if v < 16 {
            assert(upper_hex(v as nat) == seq![upper_hex_digit(v as int)]);
        }
    }
}

fn hex4(v: u32) -> (s: String)
    ensures
        s@ == pad4(upper_hex(v as nat)),
{
    let mut digits = String::new();
    push_upper_hex(&mut digits, v);
    let dv = chars_of(digits.as_str());
    let mut out = String::new();
    let mut k = dv.len();
    while k < 4
        invariant
            dv.len() <= k <= 4 || (k == dv.len() && k >= 4),
            out@ == Seq::new((k - dv.len()) as nat, |j: int| '0'),
        decreases 4 - k,
    {
        out.push('0');
        k += 1;
        assert(out@ =~= Seq::new((k - dv.len()) as nat, |j: int| '0'));
    }
    push_range(&mut out, &dv, 0, dv.len());
    assert(dv@.subrange(0, dv.len() as int) == dv@);
    proof {
        if dv.len() >= 4 {
            assert(out@ =~= dv@);
        }
    }
    out
}

/// Line and column just after `v[..upto]` (each `usize::MAX` at most).
fn line_col(v: &Vec<char>, upto: usize) -> (r: (usize, usize))
    requires
        upto <= v.len(),
    ensures
        r.0 == clamp_usize(line_col_after(v@.take(upto as int)).0),
        r.1 == clamp_usize(line_col_after(v@.take(upto as int)).1),
{
    let mut line: usize = 1;
    let mut col: usize = 1;
    let mut k: usize = 0;
    while k < upto
        invariant
            k <= upto <= v.len(),
            line == clamp_usize(line_col_after(v@.take(k as int)).0),
            col == clamp_usize(line_col_after(v@.take(k as int)).1),
            line_col_after(v@.take(k as int)).0 >= 1,
            line_col_after(v@.take(k as int)).1 >= 1,
        decreases upto - k,
    {
        assert(v@.take(k + 1).drop_last() == v@.take(k as int));
        if v[k] == '\n' {
            if line < usize::MAX {
                line += 1;
            }
            col = 1;
        } else {
            if col < usize::MAX {
                col += 1;
            }
        }
        k += 1;
    }
    (line, col)
}

/// UTF-8 length of `v[..upto]`, or `usize::MAX` where that is larger.
fn byte_offset_of(v: &Vec<char>, upto: usize) -> (r: usize)
    requires
        upto <= v.len(),
    ensures
        r == clamp_usize(utf8_len(v@.take(upto as int))),
{
    let mut total: usize = 0;
    let mut k: usize = 0;
    let mut saturated = false;
    while k < upto
        invariant
            k <= upto <= v.len(),
            !saturated ==> total == utf8_len(v@.take(k as int)),
            saturated ==> total == usize::MAX && utf8_len(v@.take(k as int)) >= usize::MAX,
        decreases upto - k,
    {
        assert(v@.take(k + 1).drop_last() == v@.take(k as int));
        let w = char_width(v[k]);
        if saturated || total > usize::MAX - w {
            saturated = true;
            total = usize::MAX;
        } else {
            total = total + w;
        }
        k += 1;
    }
    total
}

fn build_error(v: &Vec<char>, p: usize) -> (e: LexError)
    requires
        p < v.len(),
    ensures
        lex_error_fits(e, v@, p as int),
{
    let c = v[p];
    let mut message = String::new();
    push_str(&mut message, "unrecognized character ");
    let d = char_debug(c);
    let dv = chars_of(d.as_str());
    push_range(&mut message, &dv, 0, dv.len());
    assert(dv@.subrange(0, dv.len() as int) == dv@);
    push_str(&mut message, " (U+");
    let h = hex4(c as u32);
    let hv = chars_of(h.as_str());
    push_range(&mut message, &hv, 0, hv.len());
    assert(hv@.subrange(0, hv.len() as int) == hv@);
    push_str(&mut message, ")");
    let (line, column) = line_col(v, p);
    LexError { message, byte_offset: byte_offset_of(v, p), line, column }
}

fn copy_range(v: &Vec<char>, start: usize, end: usize) -> (r: Vec<char>)
    requires
        start <= end <= v.len(),
    ensures
        r@ == v@.subrange(start as int, end as int),
{
    let mut r: Vec<char> = Vec::new();
    let mut k = start;
    while k < end
        invariant
            start <= k <= end <= v.len(),
            r@ == v@.subrange(start as int, k as int),
        decreases end - k,
    {
        r.push(v[k]);
        k += 1;
        assert(r@ == v@.subrange(start as int, k as int));
    }
    r
}

/// The lexer of the language: turns source text into tokens.
pub struct Lexer {
    chars: Vec<char>,
    pos: usize,
}

impl Lexer {
    /// The whole source text being read (see [`Lexer::position`] for how far).
    pub closed spec fn text(&self) -> Seq<char> {
        self.chars@
    }

    /// Where reading goes on.
    pub closed spec fn position(&self) -> int {
        self.pos as int
    }

    pub fn new(input: &str) -> (l: Lexer)
        ensures
            l.text() == input@,
            l.position() == 0,
    {
        Lexer { chars: chars_of(input), pos: 0 }
    }

    /// Reads the rest of the input: the tokens with their texts (a string literal's text is
    /// its contents, unescaped), or the error at the first character that starts no token.
    pub fn tokenize(&mut self) -> (r: Result<Vec<(Token, String)>, LexError>)
        requires
            old(self).position() <= old(self).text().len(),
        ensures
            final(self).text() == old(self).text(),
            final(self).position() <= final(self).text().len(),
            match lex_from(old(self).text(), old(self).position(), false) {
                Ok(toks) => r matches Ok(v) && token_texts(v@) == toks,
                Err(p) => r matches Err(e) && 0 <= p < old(self).text().len()
                    && lex_error_fits(e, old(self).text(), p),
            },
    {
        let ghost s = self.chars@;
        let ghost start = self.pos as int;
        let n = self.chars.len();
        let mut out: Vec<(Token, String)> = Vec::new();
        let mut after_bytes = false;
        while self.pos < n
            invariant
                self.chars@ == s,
                s == old(self).chars@,
                start == old(self).pos,
                n == s.len(),
                self.pos <= n,
                0 <= start <= s.len(),
                prepend_tokens(token_texts(out@), lex_from(s, self.pos as int, after_bytes)) == lex_from(s, start, false),
            decreases n - self.pos,
        {
            let i = self.pos;
            match scan(&self.chars, i) {
                Lexeme::Skip(e) => {
                    self.pos = e;
                },
                Lexeme::Emit(t, e) => {
                    let value = if t == Token::String && after_bytes {
                        string_from_range(&self.chars, i + 1, e - 1)
                    } else if t == Token::String {
                        let inner = copy_range(&self.chars, i + 1, e - 1);
                        unescape_chars(&inner)
                    } else {
                        string_from_range(&self.chars, i, e)
                    };
                    let ghost old_out = out@;
                    out.push((t, value));
                    proof {
                        assert(token_texts(out@) == token_texts(old_out) + seq![(t, lexeme_value(s, t, i as int, e as int, after_bytes))]);
                        match lex_from(s, e as int, t == Token::Bytes) {
                            Ok(rest) => {
                                assert(token_texts(old_out) + (seq![(t, lexeme_value(s, t, i as int, e as int, after_bytes))] + rest)
                                    == token_texts(out@) + rest);
                            },
                            Err(p) => {},
                        }
                    }
                    self.pos = e;
                    after_bytes = t == Token::Bytes;
                },
                Lexeme::Fail => {
                    return Err(build_error(&self.chars, i));
                },
            }
        }
        assert(token_texts(out@) + seq![] == token_texts(out@));
        Ok(out)
    }
}

/// Lexes a whole source text.
pub fn tokenize_source(input: &str) -> (r: Result<Vec<(Token, String)>, LexError>)
    ensures
        match lex(input@) {
            Ok(toks) => r matches Ok(v) && token_texts(v@) == toks,
            Err(p) => r matches Err(e) && 0 <= p < input@.len() && lex_error_fits(e, input@, p),
        },
{
    let mut l = Lexer::new(input);
    l.tokenize()
}

} // verus!
