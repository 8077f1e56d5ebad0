use vstd::prelude::*;
use crate::ast::{copy_expr, 
    Program, Item, Attribute, AttributeArg, GenericParam, FnDef, StructDef, StructField, EnumDef,
    EnumVariant, ConstDef, ModelDef, ModelField, UseStmt, ImplementDef, InterfaceDef, FnSig,
    WhereClause, Param, Block, ForStmt, AssignStmt, LoopStmt, BreakStmt, MatchExpr, MatchArm,
    Pattern, Stmt, LetStmt, UnsafeBlockStmt, UnsafeKind, WhileStmt, CallArg, Expr, ExprKind,
    UnaryOp, IfKind, Literal, BinaryOp, Type, PrivacyTag, ShapeDim,
};
use crate::lexer::{lex, token_texts, tokenize_source, parse_hex, upper_hex, char_is_digit, push_upper_hex};
use crate::text::{string_debug, string_debug_text, chars_of, push_str, push_range, str_eq, string_from_range, push_decimal, decimal_text, string_views, lemma_views_push};
use crate::token::{Token, token_name, token_name_text};

verus! {

/// Recursive-descent parser over the token stream of one source text.
pub struct Parser {
    tokens: Vec<(Token, String)>,
    pos: usize,
    expr_id_counter: usize,
    generic_scopes: Vec<Vec<String>>,
    no_struct_literal: bool,
}

/// Two upper-case hexadecimal digits of a byte value (a leading zero below 16).
pub open spec fn hex2_text(v: int) -> Seq<char> {
    (if v < 16 { seq!['0'] } else { Seq::<char>::empty() }) + upper_hex(v as nat)
}

/// The message for the first flaw of the byte-string contents `s` from index `i` on (see
/// [`decode_bytes_from`]); empty where there is none.
pub open spec fn decode_error(s: Seq<char>, i: int) -> Seq<char>
    decreases s.len() - i,
{
    if i < 0 || i >= s.len() {
        Seq::empty()
    } else if s[i] == '\\' {
        if i + 1 >= s.len() {
            "incomplete escape sequence in byte string"@
        } else {
            let c = s[i + 1];
            if c == 'n' || c == 'r' || c == 't' || c == '\\' || c == '"' || c == '0' {
                decode_error(s, i + 2)
            } else if c != 'x' {
                "unknown escape sequence in byte string: \\"@.push(c)
            } else if i + 3 >= s.len() {
                "incomplete \\x escape in byte string"@
            } else {
                match parse_hex(s.subrange(i + 2, i + 4)) {
                    None => "invalid \\x escape in byte string: \\x"@.push(s[i + 2]).push(s[i + 3]),
                    Some(v) => if v <= 0x7F {
                        decode_error(s, i + 4)
                    } else {
                        "error[BS001]: byte string contains non-ASCII byte 0x"@ + hex2_text(v)
                    },
                }
            }
        }
    } else if (s[i] as u32) > 0x7F {
        "error[BS001]: byte string contains non-ASCII byte 0x"@ + upper_hex((s[i] as u32) as nat)
    } else {
        decode_error(s, i + 1)
    }
}

/// The bytes that the contents of a byte-string literal stand for, read from index `i` on:
/// escapes `\n \r \t \\ \" \0` and `\xNN` (a value below 0x80), every other character a single
/// ASCII byte. `None` where the contents break one of these rules.
pub open spec fn decode_bytes_from(s: Seq<char>, i: int) -> Option<Seq<u8>>
    decreases s.len() - i,
{
    if i < 0 || i >= s.len() {
        Some(seq![])
    } else if s[i] == '\\' {
        if i + 1 >= s.len() {
            None
        } else {
            let c = s[i + 1];
            let one = if c == 'n' {
                Some(0x0Au8)
            } else if c == 'r' {
                Some(0x0Du8)
            } else if c == 't' {
                Some(0x09u8)
            } else if c == '\\' {
                Some(0x5Cu8)
            } else if c == '"' {
                Some(0x22u8)
            } else if c == '0' {
                Some(0u8)
            } else {
                None
            };
            if one is Some {
                match decode_bytes_from(s, i + 2) {
                    Some(rest) => Some(seq![one->Some_0] + rest),
                    None => None,
                }
            } else if c == 'x' && i + 3 < s.len() {
                match parse_hex(s.subrange(i + 2, i + 4)) {
                    Some(v) => if v <= 0x7F {
                        match decode_bytes_from(s, i + 4) {
                            Some(rest) => Some(seq![v as u8] + rest),
                            None => None,
                        }
                    } else {
                        None
                    },
                    None => None,
                }
            } else {
                None
            }
        }
    } else if (s[i] as u32) > 0x7F {
        None
    } else {
        match decode_bytes_from(s, i + 1) {
            Some(rest) => Some(seq![s[i] as u8] + rest),
            None => None,
        }
    }
}

impl Parser {
    // ===== views of the parser state =====

    pub closed spec fn wf(&self) -> bool {
        &&& self.pos <= self.tokens@.len()
    }

    pub closed spec fn position(&self) -> int {
        self.pos as int
    }

    pub closed spec fn token_count(&self) -> int {
        self.tokens@.len() as int
    }

    /// The kinds and texts of the tokens.
    pub closed spec fn token_seq(&self) -> Seq<(Token, Seq<char>)> {
        token_texts(self.tokens@)
    }

    pub closed spec fn id_counter(&self) -> int {
        self.expr_id_counter as int
    }

    /// The generic parameter names in scope, innermost declaration last.
    pub closed spec fn scopes(&self) -> Seq<Vec<String>> {
        self.generic_scopes@
    }

    pub closed spec fn struct_literals_off(&self) -> bool {
        self.no_struct_literal
    }

    /// Kind of the token `n` places ahead, if there is one.
    pub open spec fn kind_ahead(&self, n: int) -> Option<Token> {
        if 0 <= self.position() + n < self.token_count() {
            Some(self.token_seq()[self.position() + n].0)
        } else {
            None
        }
    }

    /// The next token is `&`, and neither `self` nor `mut self` follows it.
    pub open spec fn amp_without_self(&self) -> bool {
        &&& self.kind_ahead(0) == Some(Token::Amp)
        &&& self.kind_ahead(1) != Some(Token::SelfLower)
        &&& !(self.kind_ahead(1) == Some(Token::Mut) && self.kind_ahead(2) == Some(Token::SelfLower))
    }

    /// `X for P` ahead: `X` a name that is not `Tensor`, `usize`, `isize` or a generic
    /// parameter in scope, and `P` a primitive type.
    pub open spec fn named_for_prim_ahead(&self) -> bool {
        &&& self.kind_ahead(0) == Some(Token::Ident)
        &&& self.text_ahead(0) != "Tensor"@ && self.text_ahead(0) != "usize"@ && self.text_ahead(0) != "isize"@
        &&& !generic_active(self.scopes(), self.text_ahead(0))
        &&& self.kind_ahead(1) == Some(Token::For)
        &&& (self.kind_ahead(2) matches Some(k) && primitive_type_of(k) is Some)
    }

    /// Argument `i` of a type-argument list ahead (after `Name <`) is a primitive type.
    pub open spec fn type_arg_is_prim(&self, i: int) -> bool {
        self.kind_ahead(2 + 2 * i) matches Some(k) && primitive_type_of(k) is Some
    }

    /// Argument `i` of a type-argument list ahead is followed by a comma.
    pub open spec fn type_arg_has_comma(&self, i: int) -> bool {
        self.kind_ahead(3 + 2 * i) == Some(Token::Comma)
    }

    /// The primitive type that argument `i` of a type-argument list ahead names.
    pub open spec fn prim_arg(&self, i: int) -> Type {
        primitive_type_of(self.kind_ahead(2 + 2 * i)->0)->0
    }

    /// `Name<P1, ..., Pc>` ahead: `Name` is not `Tensor` and every `Pi` is a primitive type.
    pub open spec fn prim_generic_ahead(&self, count: int) -> bool {
        &&& count >= 1
        &&& self.kind_ahead(0) == Some(Token::Ident) && self.text_ahead(0) != "Tensor"@
        &&& self.kind_ahead(1) == Some(Token::Lt)
        &&& forall|i: int| 0 <= i < count ==> #[trigger] self.type_arg_is_prim(i)
        &&& forall|i: int| 0 <= i < count - 1 ==> #[trigger] self.type_arg_has_comma(i)
        &&& self.kind_ahead(1 + 2 * count) == Some(Token::Gt)
    }

    /// A primitive type-argument list ahead has one length only.
    pub proof fn lemma_prim_generic_unique(&self, c1: int, c2: int)
        requires
            self.prim_generic_ahead(c1),
            self.prim_generic_ahead(c2),
        ensures
            c1 == c2,
    {
        if c1 < c2 {
            assert(self.type_arg_has_comma(c1 - 1));
        } else if c2 < c1 {
            assert(self.type_arg_has_comma(c2 - 1));
        }
    }

    /// `while N {` ahead, with room for the ids that reading the rest needs.
    pub open spec fn while_simple_ahead(&self) -> bool {
        &&& self.kind_ahead(0) == Some(Token::While)
        &&& int_ok(*self, 1)
        &&& self.kind_ahead(2) == Some(Token::LBrace)
        &&& self.id_counter() + (self.token_count() - self.position()) < usize::MAX
    }

    /// `for v in A..B {` ahead, `A` and `B` integer literals, with room for the ids that
    /// reading the rest needs.
    pub open spec fn for_range_ahead(&self) -> bool {
        &&& self.kind_ahead(0) == Some(Token::For)
        &&& self.kind_ahead(1) == Some(Token::Ident)
        &&& self.kind_ahead(2) == Some(Token::In)
        &&& int_ok(*self, 3)
        &&& self.kind_ahead(4) == Some(Token::Range)
        &&& int_ok(*self, 5)
        &&& self.kind_ahead(6) == Some(Token::LBrace)
        &&& self.id_counter() + (self.token_count() - self.position()) < usize::MAX
    }

    /// `X for Y` ahead: both plain names (not `Tensor`, `usize` or `isize`), `X` not a generic
    /// parameter in scope.
    pub open spec fn named_for_named_ahead(&self) -> bool {
        &&& self.kind_ahead(0) == Some(Token::Ident)
        &&& self.text_ahead(0) != "Tensor"@ && self.text_ahead(0) != "usize"@ && self.text_ahead(0) != "isize"@
        &&& !generic_active(self.scopes(), self.text_ahead(0))
        &&& self.kind_ahead(1) == Some(Token::For)
        &&& self.kind_ahead(2) == Some(Token::Ident)
        &&& self.text_ahead(2) != "Tensor"@ && self.text_ahead(2) != "usize"@ && self.text_ahead(2) != "isize"@
    }

    /// The type a plain name `n` stands for here: a generic parameter in scope, else a struct.
    pub open spec fn names_type(&self, t: Type, n: Seq<char>) -> bool {
        if generic_active(self.scopes(), n) {
            t matches Type::TypeParam(m) && m@ == n
        } else {
            t matches Type::Struct(m) && m@ == n
        }
    }

    /// The tokens that a `self` parameter ahead takes: `self` 1, `&self` 2, `&mut self` 3;
    /// 0 where none stands there.
    pub open spec fn self_param_len(&self) -> int {
        if self.kind_ahead(0) == Some(Token::SelfLower) {
            1
        } else if self.kind_ahead(0) == Some(Token::Amp) && self.kind_ahead(1) == Some(Token::SelfLower) {
            2
        } else if self.kind_ahead(0) == Some(Token::Amp) && self.kind_ahead(1) == Some(Token::Mut)
            && self.kind_ahead(2) == Some(Token::SelfLower) {
            3
        } else {
            0
        }
    }

    /// The parameter that a `self` parameter ahead (see [`Parser::self_param_len`]) reads as.
    pub open spec fn self_param_is(&self, p: Param) -> bool {
        &&& p.name@ == "self"@
        &&& p.ty == if self.self_param_len() == 1 {
            Type::SelfType
        } else {
            Type::Ref { mutable: self.self_param_len() == 3, inner: Box::new(Type::SelfType) }
        }
    }

    /// A `self` parameter, then `, x: P)` with `P` a primitive type, ahead.
    pub open spec fn self_and_typed_ahead(&self) -> bool {
        let n = self.self_param_len();
        &&& n > 0
        &&& self.kind_ahead(n) == Some(Token::Comma)
        &&& self.kind_ahead(n + 1) == Some(Token::Ident)
        &&& self.kind_ahead(n + 2) == Some(Token::Colon)
        &&& (self.kind_ahead(n + 3) matches Some(k) && primitive_type_of(k) is Some)
        &&& self.kind_ahead(n + 4) == Some(Token::RParen)
    }

    /// Text of the token `n` places ahead.
    pub open spec fn text_ahead(&self, n: int) -> Seq<char> {
        self.token_seq()[self.position() + n].1
    }

    /// `new` reads on from `old`: same tokens, position not back, ids not reused,
    /// generic scopes as they were.
    pub open spec fn reads_on(new: Parser, old: Parser) -> bool {
        &&& new.token_seq() == old.token_seq()
        &&& new.token_count() == old.token_count()
        &&& old.position() <= new.position() <= new.token_count()
        &&& old.id_counter() <= new.id_counter()
        &&& new.scopes() == old.scopes()
        &&& new.wf()
    }

    /// A successful parse step: it consumed at least one token and left the struct-literal
    /// switch as it found it.
    pub open spec fn consumed(new: Parser, old: Parser) -> bool {
        &&& Self::reads_on(new, old)
        &&& new.position() > old.position()
        &&& new.struct_literals_off() == old.struct_literals_off()
    }

    // ===== construction =====

    /// A parser over the tokens of `input`. The input must lex without error.
    pub fn new(input: &str) -> (p: Parser)
        requires
            lex(input@) is Ok,
        ensures
            p.wf(),
            p.position() == 0,
            p.id_counter() == 0,
            p.scopes().len() == 0,
            !p.struct_literals_off(),
            p.token_seq() == lex(input@)->Ok_0,
    {
        match tokenize_source(input) {
            Ok(tokens) => Parser::from_tokens(tokens),
            Err(_) => {
                proof {
                    assert(false);
                }
                Parser::from_tokens(Vec::new())
            },
        }
    }

    /// A parser over a token stream.
    pub fn from_tokens(tokens: Vec<(Token, String)>) -> (p: Parser)
        ensures
            p.wf(),
            p.position() == 0,
            p.id_counter() == 0,
            p.scopes().len() == 0,
            !p.struct_literals_off(),
            p.token_seq() == token_texts(tokens@),
    {
        Parser { tokens, pos: 0, expr_id_counter: 0, generic_scopes: Vec::new(), no_struct_literal: false }
    }

    // ===== generic scopes =====

    fn push_generic_scope(&mut self, params: &Vec<GenericParam>)
        ensures
            final(self).scopes().len() == old(self).scopes().len() + 1,
            final(self).scopes().drop_last() == old(self).scopes(),
            final(self).scopes().last()@.len() == params@.len(),
            forall|k: int| 0 <= k < params@.len() ==>
                (#[trigger] final(self).scopes().last()@[k])@ == generic_param_name(params@[k])@,
            final(self).tokens == old(self).tokens,
            final(self).pos == old(self).pos,
            final(self).expr_id_counter == old(self).expr_id_counter,
            final(self).no_struct_literal == old(self).no_struct_literal,
    {
        let mut names: Vec<String> = Vec::new();
        let mut k: usize = 0;
        while k < params.len()
            invariant
                k <= params@.len(),
                names@.len() == k,
                forall|j: int| 0 <= j < k ==> (#[trigger] names@[j])@ == generic_param_name(params@[j])@,
            decreases params.len() - k,
        {
            match &params[k] {
                GenericParam::Type { name, .. } => {
                    names.push(name.clone());
                },
            }
            k += 1;
        }
        self.generic_scopes.push(names);
    }

    fn pop_generic_scope(&mut self)
        ensures
            final(self).scopes() == if old(self).scopes().len() > 0 {
                old(self).scopes().drop_last()
            } else {
                old(self).scopes()
            },
            final(self).tokens == old(self).tokens,
            final(self).pos == old(self).pos,
            final(self).expr_id_counter == old(self).expr_id_counter,
            final(self).no_struct_literal == old(self).no_struct_literal,
    {
        let _ = self.generic_scopes.pop();
    }

    /// Whether `name` is a generic parameter of a declaration being parsed.
    fn is_active_generic(&self, name: &String) -> (r: bool)
        ensures
            r == exists|i: int, j: int|
                0 <= i < self.scopes().len() && 0 <= j < self.scopes()[i]@.len()
                    && (#[trigger] self.scopes()[i]@[j])@ == name@,
    {
        let mut i: usize = 0;
        while i < self.generic_scopes.len()
            invariant
                i <= self.generic_scopes@.len(),
                forall|a: int, b: int|
                    0 <= a < i && 0 <= b < self.generic_scopes@[a]@.len()
                        ==> (#[trigger] self.generic_scopes@[a]@[b])@ != name@,
            decreases self.generic_scopes.len() - i,
        {
            let scope = &self.generic_scopes[i];
            let mut j: usize = 0;
            while j < scope.len()
                invariant
                    i < self.generic_scopes@.len(),
                    scope == self.generic_scopes@[i as int],
                    j <= scope@.len(),
                    forall|b: int| 0 <= b < j ==> (#[trigger] scope@[b])@ != name@,
                decreases scope.len() - j,
            {
                if scope[j] == *name {
                    assert(self.scopes()[i as int]@[j as int]@ == name@);
                    return true;
                }
                j += 1;
            }
            i += 1;
        }
        false
    }

    /// A fresh expression id.
    fn next_expr_id(&mut self) -> (r: Result<usize, String>)
        ensures
            r matches Ok(id) ==> id == old(self).expr_id_counter
                && final(self).expr_id_counter == old(self).expr_id_counter + 1,
            r is Err ==> old(self).expr_id_counter == usize::MAX
                && final(self).expr_id_counter == old(self).expr_id_counter,
            final(self).tokens == old(self).tokens,
            final(self).pos == old(self).pos,
            final(self).generic_scopes == old(self).generic_scopes,
            final(self).no_struct_literal == old(self).no_struct_literal,
    {
        if self.expr_id_counter == usize::MAX {
            return Err("too many expressions".to_string());
        }
        let id = self.expr_id_counter;
        self.expr_id_counter += 1;
        Ok(id)
    }

    // ===== token access =====

    /// Kind of the current token.
    fn peek(&self) -> (r: Option<Token>)
        requires
            self.wf(),
        ensures
            r == self.kind_ahead(0),
    {
        if self.pos < self.tokens.len() {
            Some(self.tokens[self.pos].0)
        } else {
            None
        }
    }

    /// Kind of the token `n` places ahead.
    fn peek_nth(&self, n: usize) -> (r: Option<Token>)
        requires
            self.wf(),
        ensures
            r == self.kind_ahead(n as int),
    {
        if n < self.tokens.len() - self.pos {
            Some(self.tokens[self.pos + n].0)
        } else {
            None
        }
    }

    /// Whether the current token has kind `t`.
    fn at(&self, t: Token) -> (r: bool)
        requires
            self.wf(),
        ensures
            r == (self.kind_ahead(0) == Some(t)),
    {
        self.pos < self.tokens.len() && self.tokens[self.pos].0 == t
    }

    /// Text of the current token.
    fn peek_text(&self) -> (r: String)
        requires
            self.wf(),
            self.position() < self.token_count(),
        ensures
            r@ == self.text_ahead(0),
    {
        self.tokens[self.pos].1.clone()
    }

    /// Takes the current token.
    fn next(&mut self) -> (r: Option<(Token, String)>)
        requires
            old(self).wf(),
        ensures
            match old(self).kind_ahead(0) {
                Some(t) => r matches Some((k, v)) && k == t && v@ == old(self).text_ahead(0)
                    && final(self).pos == old(self).pos + 1,
                None => r is None && final(self).pos == old(self).pos,
            },
            final(self).wf(),
            final(self).tokens == old(self).tokens,
            final(self).expr_id_counter == old(self).expr_id_counter,
            final(self).generic_scopes == old(self).generic_scopes,
            final(self).no_struct_literal == old(self).no_struct_literal,
    {
        if self.pos < self.tokens.len() {
            let t = self.tokens[self.pos].0;
            let v = self.tokens[self.pos].1.clone();
            self.pos += 1;
            Some((t, v))
        } else {
            None
        }
    }
}

/// The value of a sequence of decimal digits.
pub open spec fn decimal_value(d: Seq<char>) -> int
    decreases d.len(),
{
    if d.len() == 0 { 0 } else { decimal_value(d.drop_last()) * 10 + (d.last() as u32 - 0x30) }
}

pub open spec fn all_digits(d: Seq<char>) -> bool {
    forall|k: int| 0 <= k < d.len() ==> crate::lexer::is_digit(#[trigger] d[k])
}

/// An integer token's text that can be read as a number: a non-empty run of decimal
/// digits whose value fits both `i64` and `usize`.
pub open spec fn int_text_ok(t: Seq<char>) -> bool {
    &&& t.len() > 0
    &&& all_digits(t)
    &&& decimal_value(t) <= i64::MAX
}

/// An integer token's text that reads as a `usize` (a shape dimension).
pub open spec fn dim_text_ok(t: Seq<char>) -> bool {
    &&& t.len() > 0
    &&& all_digits(t)
    &&& decimal_value(t) <= usize::MAX
}

/// The token `n` places ahead of `p` is an integer literal that can be read as a number.
pub open spec fn int_ok(p: Parser, n: int) -> bool {
    p.kind_ahead(n) == Some(Token::Integer) && int_text_ok(p.text_ahead(n))
}

/// The value of digits only grows as digits are appended.
proof fn lemma_decimal_value_grows(d: Seq<char>, i: int, j: int)
    requires
        0 <= i <= j <= d.len(),
        all_digits(d),
    ensures
        0 <= decimal_value(d.take(i)) <= decimal_value(d.take(j)),
    decreases j - i,
{
    if i < j {
        lemma_decimal_value_grows(d, i, j - 1);
        assert(d.take(j).drop_last() =~= d.take(j - 1));
        assert(crate::lexer::is_digit(d[j - 1]));
    } else {
        lemma_decimal_value_nonneg(d.take(i));
    }
}

pub(crate) proof fn lemma_decimal_value_nonneg(d: Seq<char>)
    requires
        all_digits(d),
    ensures
        decimal_value(d) >= 0,
    decreases d.len(),
{
    if d.len() > 0 {
        assert(all_digits(d.drop_last()));
        lemma_decimal_value_nonneg(d.drop_last());
    }
}

/// Whether an integer token's text is digits whose value is at most `limit`.
fn integer_text_fits(t: &String, limit: u64) -> (r: bool)
    requires
        limit >= 9,
    ensures
        r == (t@.len() > 0 && all_digits(t@) && decimal_value(t@) <= limit),
{
    let v = chars_of(t.as_str());
    if v.len() == 0 {
        return false;
    }
    let mut k: usize = 0;
    while k < v.len()
        invariant
            k <= v@.len(),
            v@ == t@,
            forall|j: int| 0 <= j < k ==> crate::lexer::is_digit(#[trigger] v@[j]),
        decreases v.len() - k,
    {
        if !char_is_digit(v[k]) {
            return false;
        }
        k += 1;
    }
    let mut acc: u64 = 0;
    let mut k: usize = 0;
    while k < v.len()
        invariant
            k <= v@.len(),
            v@ == t@,
            all_digits(v@),
            acc as int == decimal_value(v@.take(k as int)),
            acc <= limit,
            limit >= 9,
        decreases v.len() - k,
    {
        let d = (v[k] as u32 - 0x30) as u64;
        assert(v@.take(k as int + 1).drop_last() =~= v@.take(k as int));
        if acc > (limit - d) / 10 {
            proof {
                lemma_decimal_value_grows(v@, k as int + 1, v@.len() as int);
                assert(v@.take(v@.len() as int) =~= v@);
            }
            return false;
        }
        acc = acc * 10 + d;
        k += 1;
    }
    assert(v@.take(v@.len() as int) =~= v@);
    true
}

/// Kind of token `i`, if there is one.
pub open spec fn kind_at(toks: Seq<(Token, Seq<char>)>, i: int) -> Option<Token> {
    if 0 <= i < toks.len() { Some(toks[i].0) } else { None }
}

/// Text of token `i`.
pub open spec fn text_at(toks: Seq<(Token, Seq<char>)>, i: int) -> Seq<char> {
    toks[i].1
}

/// The rational literal at token `i`: its text (`n/d` rebuilt with the slash) and the index
/// of the token after it.
pub open spec fn rational_at(toks: Seq<(Token, Seq<char>)>, i: int) -> Option<(Seq<char>, int)> {
    match kind_at(toks, i) {
        Some(Token::Float) => Some((text_at(toks, i), i + 1)),
        Some(Token::Integer) => if kind_at(toks, i + 1) == Some(Token::Slash) {
            if kind_at(toks, i + 2) == Some(Token::Integer) {
                Some((text_at(toks, i) + "/"@ + text_at(toks, i + 2), i + 3))
            } else {
                None
            }
        } else {
            Some((text_at(toks, i), i + 1))
        },
        _ => None,
    }
}

/// Past token `i`, where there is one: where reading a token at `i` leaves the parser.
pub open spec fn past(toks: Seq<(Token, Seq<char>)>, i: int) -> int {
    if 0 <= i < toks.len() { i + 1 } else { i }
}

/// Where a rational literal at token `i` that cannot be read leaves the parser: after
/// `n /` and the token that should have been the denominator; where it did not start, at `i`.
pub open spec fn rational_fail_end(toks: Seq<(Token, Seq<char>)>, i: int) -> int {
    if kind_at(toks, i) == Some(Token::Integer) && kind_at(toks, i + 1) == Some(Token::Slash) { past(toks, i + 2) } else { i }
}

/// Where the privacy tag `t` written at token `i` ends (the index after its `>`):
/// `<public>`, `<private>`, `<dp(eps: r)>` or `<dp(eps: r, delta: r)>`.
pub open spec fn tag_end(toks: Seq<(Token, Seq<char>)>, i: int, t: PrivacyTag) -> Option<int> {
    if kind_at(toks, i) != Some(Token::Lt) || kind_at(toks, i + 1) != Some(Token::Ident) {
        None
    } else if text_at(toks, i + 1) == "public"@ {
        if t is Public && kind_at(toks, i + 2) == Some(Token::Gt) { Some(i + 3) } else { None }
    } else if text_at(toks, i + 1) == "private"@ {
        if t is Private && kind_at(toks, i + 2) == Some(Token::Gt) { Some(i + 3) } else { None }
    } else if text_at(toks, i + 1) == "dp"@ && kind_at(toks, i + 2) == Some(Token::LParen)
        && kind_at(toks, i + 3) == Some(Token::Ident) && text_at(toks, i + 3) == "eps"@
        && kind_at(toks, i + 4) == Some(Token::Colon) {
        match (t, rational_at(toks, i + 5)) {
            (PrivacyTag::Differential { eps, delta }, Some((e, j))) => if eps@ != e {
                None
            } else if kind_at(toks, j) == Some(Token::Comma) {
                if kind_at(toks, j + 1) == Some(Token::Ident) && text_at(toks, j + 1) == "delta"@
                    && kind_at(toks, j + 2) == Some(Token::Colon) {
                    match (delta, rational_at(toks, j + 3)) {
                        (Some(dv), Some((d, k))) => if dv@ == d && kind_at(toks, k) == Some(Token::RParen)
                            && kind_at(toks, k + 1) == Some(Token::Gt) {
                            Some(k + 2)
                        } else {
                            None
                        },
                        _ => None,
                    }
                } else {
                    None
                }
            } else if delta is None && kind_at(toks, j) == Some(Token::RParen) && kind_at(toks, j + 1) == Some(Token::Gt) {
                Some(j + 2)
            } else {
                None
            },
            _ => None,
        }
    } else {
        None
    }
}

/// Where the shape dimension `d` written at token `i` ends: `Dyn`, `Sym<name>`, a bare
/// name, or an integer.
pub open spec fn dim_end(toks: Seq<(Token, Seq<char>)>, i: int, d: ShapeDim) -> Option<int> {
    if kind_at(toks, i) == Some(Token::Ident) {
        if text_at(toks, i) == "Dyn"@ {
            if d is Dyn { Some(i + 1) } else { None }
        } else if text_at(toks, i) == "Sym"@ {
            if kind_at(toks, i + 1) == Some(Token::Lt) && kind_at(toks, i + 2) == Some(Token::Ident)
                && kind_at(toks, i + 3) == Some(Token::Gt) && (d matches ShapeDim::Sym(x) && x@ == text_at(toks, i + 2)) {
                Some(i + 4)
            } else {
                None
            }
        } else if d matches ShapeDim::Sym(x) && x@ == text_at(toks, i) {
            Some(i + 1)
        } else {
            None
        }
    } else if kind_at(toks, i) == Some(Token::Integer) {
        if d matches ShapeDim::Const(c) && c == decimal_value(text_at(toks, i)) { Some(i + 1) } else { None }
    } else {
        None
    }
}

/// Where the dimensions `dims` written from token `i` end, the closing `]` included: the
/// dimensions separated by commas, a trailing comma allowed.
pub open spec fn dims_end(toks: Seq<(Token, Seq<char>)>, i: int, dims: Seq<ShapeDim>) -> Option<int>
    decreases dims.len(),
{
    if dims.len() == 0 {
        if kind_at(toks, i) == Some(Token::RBracket) { Some(i + 1) } else { None }
    } else {
        match dim_end(toks, i, dims[0]) {
            Some(k) => if kind_at(toks, k) == Some(Token::Comma) {
                dims_end(toks, k + 1, dims.drop_first())
            } else if kind_at(toks, k) == Some(Token::RBracket) && dims.len() == 1 {
                Some(k + 1)
            } else {
                None
            },
            None => None,
        }
    }
}

proof fn lemma_dims_step(toks: Seq<(Token, Seq<char>)>, first: int, before: Seq<ShapeDim>, d: ShapeDim, cur: int, k: int)
    requires
        forall|rest: Seq<ShapeDim>| #[trigger] dims_end(toks, first, before + rest) == dims_end(toks, cur, rest),
        dim_end(toks, cur, d) == Some(k),
    ensures
        kind_at(toks, k) == Some(Token::Comma) ==> forall|rest: Seq<ShapeDim>|
            #[trigger] dims_end(toks, first, before.push(d) + rest) == dims_end(toks, k + 1, rest),
        kind_at(toks, k) == Some(Token::RBracket) ==> forall|rest: Seq<ShapeDim>|
            #[trigger] dims_end(toks, first, before.push(d) + rest) == dims_end(toks, k, rest),
{
    assert forall|rest: Seq<ShapeDim>| #[trigger] dims_end(toks, first, before.push(d) + rest) == dims_end(toks, cur, seq![d] + rest) by {
        assert(before.push(d) + rest =~= before + (seq![d] + rest));
    }
    assert forall|rest: Seq<ShapeDim>| (seq![d] + rest)[0] == d && (seq![d] + rest).drop_first() =~= rest by {}
}

/// Where the shape `[d, ...]` with dimensions `dims` written at token `i` ends.
pub open spec fn shape_end(toks: Seq<(Token, Seq<char>)>, i: int, dims: Seq<ShapeDim>) -> Option<int> {
    if kind_at(toks, i) == Some(Token::LBracket) { dims_end(toks, i + 1, dims) } else { None }
}

/// Where the base type `t` written at token `i` ends: `Tensor<T, [dims]>`, a type keyword,
/// `()`, a name with type arguments `Name<A, B>`, `usize` (read as `u64`), `isize` (read as
/// `i64`), a generic parameter in `scopes`, or else a struct name.
pub open spec fn base_type_end(toks: Seq<(Token, Seq<char>)>, scopes: Seq<Vec<String>>, i: int, t: Type) -> Option<int>
    decreases t,
{
    match kind_at(toks, i) {
        Some(Token::Ident) => {
            let name = text_at(toks, i);
            if name == "Tensor"@ {
                match t {
                    Type::Tensor { dtype, shape } => if kind_at(toks, i + 1) == Some(Token::Lt) {
                        match base_type_end(toks, scopes, i + 2, *dtype) {
                            Some(k) => if kind_at(toks, k) == Some(Token::Comma) {
                                match shape_end(toks, k + 1, shape@) {
                                    Some(k2) => if kind_at(toks, k2) == Some(Token::Gt) { Some(k2 + 1) } else { None },
                                    None => None,
                                }
                            } else {
                                None
                            },
                            None => None,
                        }
                    } else {
                        None
                    },
                    _ => None,
                }
            } else if kind_at(toks, i + 1) == Some(Token::Lt) {
                match t {
                    Type::Generic(g, args) => if g@ == name {
                        type_args_end(toks, scopes, i + 2, args@)
                    } else {
                        None
                    },
                    _ => None,
                }
            } else if name == "usize"@ {
                if t == Type::U64 { Some(i + 1) } else { None }
            } else if name == "isize"@ {
                if t == Type::I64 { Some(i + 1) } else { None }
            } else if generic_active(scopes, name) {
                if t matches Type::TypeParam(x) && x@ == name { Some(i + 1) } else { None }
            } else if t matches Type::Struct(x) && x@ == name {
                Some(i + 1)
            } else {
                None
            }
        },
        Some(Token::LParen) => if kind_at(toks, i + 1) == Some(Token::RParen) && t == Type::Unit { Some(i + 2) } else { None },
        Some(k) => match primitive_type_of(k) {
            Some(pt) => if t == pt { Some(i + 1) } else { None },
            None => None,
        },
        None => None,
    }
}

/// Where the type arguments `args` written from token `i` end, the closing `>` included: base
/// types separated by commas, a trailing comma allowed.
pub open spec fn type_args_end(toks: Seq<(Token, Seq<char>)>, scopes: Seq<Vec<String>>, i: int, args: Seq<Type>) -> Option<int>
    decreases args,
{
    if args.len() == 0 {
        if kind_at(toks, i) == Some(Token::Gt) { Some(i + 1) } else { None }
    } else {
        match base_type_end(toks, scopes, i, args[0]) {
            Some(k) => if kind_at(toks, k) == Some(Token::Comma) {
                type_args_end(toks, scopes, k + 1, args.drop_first())
            } else if kind_at(toks, k) == Some(Token::Gt) && args.len() == 1 {
                Some(k + 1)
            } else {
                None
            },
            None => None,
        }
    }
}

/// Where the type `t` written at token `i` ends: `&T`, `&mut T`, `&[T]`, `&mut [T]`, or a base
/// type followed by a privacy tag where one is written there.
pub open spec fn type_end(toks: Seq<(Token, Seq<char>)>, scopes: Seq<Vec<String>>, i: int, t: Type) -> Option<int>
    decreases t,
{
    if kind_at(toks, i) == Some(Token::Amp) {
        let m = kind_at(toks, i + 1) == Some(Token::Mut);
        let j = if m { i + 2 } else { i + 1 };
        match t {
            Type::Ref { mutable, inner } => if mutable != m {
                None
            } else if kind_at(toks, j) == Some(Token::LBracket) {
                match *inner {
                    Type::Slice(elem) => match type_end(toks, scopes, j + 1, *elem) {
                        Some(k) => if kind_at(toks, k) == Some(Token::RBracket) { Some(k + 1) } else { None },
                        None => None,
                    },
                    _ => None,
                }
            } else {
                type_end(toks, scopes, j, *inner)
            },
            _ => None,
        }
    } else {
        match t {
            Type::Privacy(b, tag) => match base_type_end(toks, scopes, i, *b) {
                Some(k) => tag_end(toks, k, tag),
                None => None,
            },
            _ => match base_type_end(toks, scopes, i, t) {
                Some(k) => if kind_at(toks, k) == Some(Token::Lt) && exists|g: PrivacyTag| (#[trigger] tag_end(toks, k, g)) is Some {
                    None
                } else {
                    Some(k)
                },
                None => None,
            },
        }
    }
}

proof fn lemma_args_step(toks: Seq<(Token, Seq<char>)>, scopes: Seq<Vec<String>>, first: int, before: Seq<Type>, a: Type, cur: int, k: int)
    requires
        forall|rest: Seq<Type>| #[trigger] type_args_end(toks, scopes, first, before + rest) == type_args_end(toks, scopes, cur, rest),
        base_type_end(toks, scopes, cur, a) == Some(k),
    ensures
        kind_at(toks, k) == Some(Token::Comma) ==> forall|rest: Seq<Type>|
            #[trigger] type_args_end(toks, scopes, first, before.push(a) + rest) == type_args_end(toks, scopes, k + 1, rest),
        kind_at(toks, k) == Some(Token::Gt) ==> forall|rest: Seq<Type>|
            #[trigger] type_args_end(toks, scopes, first, before.push(a) + rest) == type_args_end(toks, scopes, k, rest),
{
    assert forall|rest: Seq<Type>| #[trigger] type_args_end(toks, scopes, first, before.push(a) + rest)
        == type_args_end(toks, scopes, cur, seq![a] + rest) by {
        assert(before.push(a) + rest =~= before + (seq![a] + rest));
    }
    assert forall|rest: Seq<Type>| (seq![a] + rest)[0] == a && (seq![a] + rest).drop_first() =~= rest by {}
    if kind_at(toks, k) == Some(Token::Gt) {
        assert forall|rest: Seq<Type>| rest.len() > 0 implies base_type_end(toks, scopes, k, rest[0]) is None by {}
    }
}

/// Where the struct fields `fields` written from token `i` end, the closing `}` included:
/// `name: Type` separated by commas, a trailing comma allowed.
pub open spec fn fields_end(toks: Seq<(Token, Seq<char>)>, scopes: Seq<Vec<String>>, i: int, fields: Seq<StructField>) -> Option<int>
    decreases fields.len(),
{
    if fields.len() == 0 {
        if kind_at(toks, i) == Some(Token::RBrace) { Some(i + 1) } else { None }
    } else if kind_at(toks, i) == Some(Token::Ident) && fields[0].name@ == text_at(toks, i)
        && kind_at(toks, i + 1) == Some(Token::Colon) {
        match type_end(toks, scopes, i + 2, fields[0].ty) {
            Some(k) => if kind_at(toks, k) == Some(Token::Comma) {
                fields_end(toks, scopes, k + 1, fields.drop_first())
            } else if kind_at(toks, k) == Some(Token::RBrace) && fields.len() == 1 {
                Some(k + 1)
            } else {
                None
            },
            None => None,
        }
    } else {
        None
    }
}

/// Where the enum variant `v` written at token `i` ends: a name, with `(Type)` where it
/// carries a value.
pub open spec fn variant_end(toks: Seq<(Token, Seq<char>)>, scopes: Seq<Vec<String>>, i: int, v: EnumVariant) -> Option<int> {
    if kind_at(toks, i) == Some(Token::Ident) && v.name@ == text_at(toks, i) {
        if kind_at(toks, i + 1) == Some(Token::LParen) {
            match v.ty {
                Some(t) => match type_end(toks, scopes, i + 2, t) {
                    Some(k) => if kind_at(toks, k) == Some(Token::RParen) { Some(k + 1) } else { None },
                    None => None,
                },
                None => None,
            }
        } else if v.ty is None {
            Some(i + 1)
        } else {
            None
        }
    } else {
        None
    }
}

/// Where the enum variants `vs` written from token `i` end, the closing `}` included: the
/// variants separated by commas, a trailing comma allowed.
pub open spec fn variants_end(toks: Seq<(Token, Seq<char>)>, scopes: Seq<Vec<String>>, i: int, vs: Seq<EnumVariant>) -> Option<int>
    decreases vs.len(),
{
    if vs.len() == 0 {
        if kind_at(toks, i) == Some(Token::RBrace) { Some(i + 1) } else { None }
    } else {
        match variant_end(toks, scopes, i, vs[0]) {
            Some(k) => if kind_at(toks, k) == Some(Token::Comma) {
                variants_end(toks, scopes, k + 1, vs.drop_first())
            } else if kind_at(toks, k) == Some(Token::RBrace) && vs.len() == 1 {
                Some(k + 1)
            } else {
                None
            },
            None => None,
        }
    }
}

/// The struct `sd`'s fields are written in a body `{ ... }` ending at token `end`, read with
/// its generic parameters in scope beside `scopes`.
pub open spec fn struct_body_written(toks: Seq<(Token, Seq<char>)>, scopes: Seq<Vec<String>>, sd: StructDef, end: int) -> bool {
    exists|names: Vec<String>, k: int|
        string_views(names@) == generic_names(sd.generic_params@)
        && kind_at(toks, k - 1) == Some(Token::LBrace)
        && #[trigger] fields_end(toks, scopes.push(names), k, sd.fields@) == Some(end)
}

/// The enum `ed`'s variants are written in a body `{ ... }` ending at token `end`, read with
/// its generic parameters in scope beside `scopes`.
pub open spec fn enum_body_written(toks: Seq<(Token, Seq<char>)>, scopes: Seq<Vec<String>>, ed: EnumDef, end: int) -> bool {
    exists|names: Vec<String>, k: int|
        string_views(names@) == generic_names(ed.generic_params@)
        && kind_at(toks, k - 1) == Some(Token::LBrace)
        && #[trigger] variants_end(toks, scopes.push(names), k, ed.variants@) == Some(end)
}

/// Where the parameters `ps` written from token `i` end (before the closing `)`, which is not
/// part of them): `self`, `&self` or `&mut self`, each optionally followed by a comma, and
/// `name: Type`, where the list ends unless a comma follows.
#[verifier::opaque]
pub open spec fn params_end(toks: Seq<(Token, Seq<char>)>, scopes: Seq<Vec<String>>, i: int, ps: Seq<Param>) -> Option<int>
    decreases ps.len(),
{
    if ps.len() == 0 {
        if kind_at(toks, i) is None || kind_at(toks, i) == Some(Token::RParen) { Some(i) } else { None }
    } else {
        let p = ps[0];
        if kind_at(toks, i) == Some(Token::Amp) {
            let m = kind_at(toks, i + 1) == Some(Token::Mut);
            let j = if m { i + 2 } else { i + 1 };
            if kind_at(toks, j) == Some(Token::SelfLower) && p.name@ == "self"@
                && p.ty == (Type::Ref { mutable: m, inner: Box::new(Type::SelfType) }) {
                let k = if kind_at(toks, j + 1) == Some(Token::Comma) { j + 2 } else { j + 1 };
                params_end(toks, scopes, k, ps.drop_first())
            } else {
                None
            }
        } else if kind_at(toks, i) == Some(Token::SelfLower) {
            if p.name@ == "self"@ && p.ty == Type::SelfType {
                let k = if kind_at(toks, i + 1) == Some(Token::Comma) { i + 2 } else { i + 1 };
                params_end(toks, scopes, k, ps.drop_first())
            } else {
                None
            }
        } else if kind_at(toks, i) == Some(Token::Ident) && p.name@ == text_at(toks, i)
            && kind_at(toks, i + 1) == Some(Token::Colon) {
            match type_end(toks, scopes, i + 2, p.ty) {
                Some(k) => if kind_at(toks, k) == Some(Token::Comma) {
                    params_end(toks, scopes, k + 1, ps.drop_first())
                } else if ps.len() == 1 {
                    Some(k)
                } else {
                    None
                },
                None => None,
            }
        } else {
            None
        }
    }
}

/// One parameter `p` read from token `cur` leaves the rest of the list to be read from `next`.
proof fn lemma_params_step(toks: Seq<(Token, Seq<char>)>, scopes: Seq<Vec<String>>, p: Param, cur: int, next: int)
    requires
        (kind_at(toks, cur) == Some(Token::SelfLower) && p.name@ == "self"@ && p.ty == Type::SelfType
            && next == if kind_at(toks, cur + 1) == Some(Token::Comma) { cur + 2 } else { cur + 1 })
        || (kind_at(toks, cur) == Some(Token::Amp) && {
            let m = kind_at(toks, cur + 1) == Some(Token::Mut);
            let j = if m { cur + 2 } else { cur + 1 };
            &&& kind_at(toks, j) == Some(Token::SelfLower)
            &&& p.name@ == "self"@
            &&& p.ty == (Type::Ref { mutable: m, inner: Box::new(Type::SelfType) })
            &&& next == if kind_at(toks, j + 1) == Some(Token::Comma) { j + 2 } else { j + 1 }
        })
        || (kind_at(toks, cur) == Some(Token::Ident) && p.name@ == text_at(toks, cur)
            && kind_at(toks, cur + 1) == Some(Token::Colon)
            && type_end(toks, scopes, cur + 2, p.ty) == Some(next - 1)
            && kind_at(toks, next - 1) == Some(Token::Comma)),
    ensures
        forall|rest: Seq<Param>| #[trigger] params_end(toks, scopes, cur, seq![p] + rest) == params_end(toks, scopes, next, rest),
{
    reveal(params_end);
    assert forall|rest: Seq<Param>| #[trigger] params_end(toks, scopes, cur, seq![p] + rest) == params_end(toks, scopes, next, rest) by {
        assert((seq![p] + rest)[0] == p);
        assert((seq![p] + rest).drop_first() =~= rest);
    }
}

/// A last parameter `name: Type` read from token `cur` and ending at `k`, no comma after it.
proof fn lemma_params_last(toks: Seq<(Token, Seq<char>)>, scopes: Seq<Vec<String>>, p: Param, cur: int, k: int)
    requires
        kind_at(toks, cur) == Some(Token::Ident),
        p.name@ == text_at(toks, cur),
        kind_at(toks, cur + 1) == Some(Token::Colon),
        type_end(toks, scopes, cur + 2, p.ty) == Some(k),
        kind_at(toks, k) != Some(Token::Comma),
    ensures
        params_end(toks, scopes, cur, seq![p]) == Some(k),
{
    reveal(params_end);
    assert(seq![p][0] == p);
}

/// No parameter at all, where the list is closed.
proof fn lemma_params_none(toks: Seq<(Token, Seq<char>)>, scopes: Seq<Vec<String>>, i: int)
    requires
        kind_at(toks, i) is None || kind_at(toks, i) == Some(Token::RParen),
    ensures
        params_end(toks, scopes, i, Seq::empty()) == Some(i),
{
    reveal(params_end);
}

proof fn lemma_params_prefix(toks: Seq<(Token, Seq<char>)>, scopes: Seq<Vec<String>>, first: int, before: Seq<Param>,
    p: Param, cur: int, next: int)
    requires
        forall|rest: Seq<Param>| #[trigger] params_end(toks, scopes, first, before + rest) == params_end(toks, scopes, cur, rest),
        forall|rest: Seq<Param>| #[trigger] params_end(toks, scopes, cur, seq![p] + rest) == params_end(toks, scopes, next, rest),
    ensures
        forall|rest: Seq<Param>| #[trigger] params_end(toks, scopes, first, before.push(p) + rest) == params_end(toks, scopes, next, rest),
{
    assert forall|rest: Seq<Param>| #[trigger] params_end(toks, scopes, first, before.push(p) + rest)
        == params_end(toks, scopes, next, rest) by {
        assert(before.push(p) + rest =~= before + (seq![p] + rest));
        assert(params_end(toks, scopes, cur, seq![p] + rest) == params_end(toks, scopes, next, rest));
    }
}

/// The names of generic parameters.
pub open spec fn generic_names(params: Seq<GenericParam>) -> Seq<Seq<char>> {
    params.map_values(|g: GenericParam| generic_param_name(g)@)
}

/// The type that a type keyword stands for.
pub open spec fn primitive_type_of(t: Token) -> Option<Type> {
    match t {
        Token::I8 => Some(Type::I8),
        Token::I16 => Some(Type::I16),
        Token::I32 => Some(Type::I32),
        Token::I64 => Some(Type::I64),
        Token::I128 => Some(Type::I128),
        Token::U8 => Some(Type::U8),
        Token::U16 => Some(Type::U16),
        Token::U32 => Some(Type::U32),
        Token::U64 => Some(Type::U64),
        Token::U128 => Some(Type::U128),
        Token::F16 => Some(Type::F16),
        Token::F32 => Some(Type::F32),
        Token::F64 => Some(Type::F64),
        Token::Bool => Some(Type::Bool),
        Token::Char => Some(Type::Char),
        Token::Str => Some(Type::Str),
        Token::SelfType => Some(Type::SelfType),
        _ => None,
    }
}

/// `name` is a generic parameter of an enclosing scope.
pub open spec fn generic_active(scopes: Seq<Vec<String>>, name: Seq<char>) -> bool {
    exists|i: int, j: int| 0 <= i < scopes.len() && 0 <= j < scopes[i]@.len() && (#[trigger] scopes[i]@[j])@ == name
}

/// Name of a generic parameter.
pub open spec fn generic_param_name(g: GenericParam) -> String {
    match g {
        GenericParam::Type { name, .. } => name,
    }
}

} // verus!

verus! {

/// "Expected X, got Y", token kinds by name.
fn expected_message(expected: Token, got: Token) -> (m: String)
    ensures
        m@ == "Expected "@ + token_name_text(expected) + ", got "@ + token_name_text(got),
{
    let mut m = String::new();
    push_str(&mut m, "Expected ");
    push_str(&mut m, token_name(expected));
    push_str(&mut m, ", got ");
    push_str(&mut m, token_name(got));
    m
}

impl Parser {
    /// Takes the current token and checks that it has kind `expected`.
    fn expect(&mut self, expected: Token) -> (r: Result<String, String>)
        requires
            old(self).wf(),
        ensures
            r is Ok <==> old(self).kind_ahead(0) == Some(expected),
            r matches Ok(v) ==> v@ == old(self).text_ahead(0),
            final(self).pos == if old(self).kind_ahead(0) is Some { old(self).pos + 1 } else { old(self).pos as int },
            final(self).wf(),
            final(self).tokens == old(self).tokens,
            final(self).expr_id_counter == old(self).expr_id_counter,
            final(self).generic_scopes == old(self).generic_scopes,
            final(self).no_struct_literal == old(self).no_struct_literal,
    {
        if let Some((token, value)) = self.next() {
            if token == expected {
                Ok(value)
            } else {
                Err(expected_message(expected, token))
            }
        } else {
            Err("Unexpected end of input".to_string())
        }
    }

    /// Takes the current token and checks that it is an identifier; gives its text.
    fn parse_ident(&mut self) -> (r: Result<String, String>)
        requires
            old(self).wf(),
        ensures
            r is Ok <==> old(self).kind_ahead(0) == Some(Token::Ident),
            r matches Ok(v) ==> v@ == old(self).text_ahead(0),
            final(self).pos == if old(self).kind_ahead(0) is Some { old(self).pos + 1 } else { old(self).pos as int },
            final(self).wf(),
            final(self).tokens == old(self).tokens,
            final(self).expr_id_counter == old(self).expr_id_counter,
            final(self).generic_scopes == old(self).generic_scopes,
            final(self).no_struct_literal == old(self).no_struct_literal,
    {
        if let Some((Token::Ident, value)) = self.next() {
            Ok(value)
        } else {
            Err("Expected identifier".to_string())
        }
    }

    /// The first segment of a path: `crate`, `super`, `here` or an identifier.
    fn parse_path_root(&mut self) -> (r: Result<String, String>)
        requires
            old(self).wf(),
        ensures
            r is Ok <==> (old(self).kind_ahead(0) == Some(Token::Ident) || old(self).kind_ahead(0) == Some(Token::Crate)
                || old(self).kind_ahead(0) == Some(Token::Super) || old(self).kind_ahead(0) == Some(Token::Here)),
            r matches Ok(v) ==> v@ == match old(self).kind_ahead(0) {
                Some(Token::Crate) => "crate"@,
                Some(Token::Super) => "super"@,
                Some(Token::Here) => "here"@,
                _ => old(self).text_ahead(0),
            },
            final(self).pos == if old(self).kind_ahead(0) is Some { old(self).pos + 1 } else { old(self).pos as int },
            final(self).wf(),
            final(self).tokens == old(self).tokens,
            final(self).expr_id_counter == old(self).expr_id_counter,
            final(self).generic_scopes == old(self).generic_scopes,
            final(self).no_struct_literal == old(self).no_struct_literal,
    {
        match self.peek() {
            Some(Token::Crate) => {
                self.next();
                Ok("crate".to_string())
            },
            Some(Token::Super) => {
                self.next();
                Ok("super".to_string())
            },
            Some(Token::Here) => {
                self.next();
                Ok("here".to_string())
            },
            _ => self.parse_ident(),
        }
    }

    /// Reads `:: ident` where the current token is `::`; reads nothing otherwise.
    fn try_read_path_segment(&mut self) -> (r: Option<Result<String, String>>)
        requires
            old(self).wf(),
        ensures
            r is None <==> old(self).kind_ahead(0) != Some(Token::PathSep),
            r is None ==> final(self).pos == old(self).pos,
            r matches Some(res) ==> {
                &&& (res is Ok <==> old(self).kind_ahead(1) == Some(Token::Ident))
                &&& (res matches Ok(v) ==> v@ == old(self).text_ahead(1))
                &&& final(self).pos == if old(self).kind_ahead(1) is Some { old(self).pos + 2 } else { old(self).pos + 1 }
            },
            final(self).wf(),
            final(self).tokens == old(self).tokens,
            final(self).expr_id_counter == old(self).expr_id_counter,
            final(self).generic_scopes == old(self).generic_scopes,
            final(self).no_struct_literal == old(self).no_struct_literal,
    {
        if self.at(Token::PathSep) {
            self.next();
            Some(self.parse_ident())
        } else {
            None
        }
    }

    /// Decodes the text of a byte-string literal's string token, as the lexer left it, into
    /// bytes.
    fn decode_byte_string(s: &str) -> (r: Result<Vec<u8>, String>)
        ensures
            match decode_bytes_from(s@, 0) {
                Some(b) => r matches Ok(v) && v@ == b,
                None => r matches Err(m) && m@ == decode_error(s@, 0),
            },
    {
        let v = chars_of(s);
        let n = v.len();
        let mut bytes: Vec<u8> = Vec::new();
        let mut i: usize = 0;
        while i < n
            invariant
                i <= n == v.len(),
                v@ == s@,
                match decode_bytes_from(v@, 0) {
                    Some(b) => decode_bytes_from(v@, i as int) matches Some(rest) && b == bytes@ + rest,
                    None => decode_bytes_from(v@, i as int) is None && decode_error(v@, 0) == decode_error(v@, i as int),
                },
            decreases n - i,
        {
            let ghost old_bytes = bytes@;
            let ghost oi = i as int;
            let c = v[i];
            if c == '\\' {
                if i + 1 >= n {
                    return Err("incomplete escape sequence in byte string".to_string());
                }
                let d = v[i + 1];
                let one: Option<u8> = if d == 'n' {
                    Some(0x0Au8)
                } else if d == 'r' {
                    Some(0x0Du8)
                } else if d == 't' {
                    Some(0x09u8)
                } else if d == '\\' {
                    Some(0x5Cu8)
                } else if d == '"' {
                    Some(0x22u8)
                } else if d == '0' {
                    Some(0u8)
                } else {
                    None
                };
                match one {
                    Some(b) => {
                        bytes.push(b);
                        i = i + 2;
                        proof {
                            match decode_bytes_from(v@, 0) {
                                Some(all) => {
                                    let rest = decode_bytes_from(v@, i as int)->Some_0;
                                    assert(all == old_bytes + (seq![b] + rest));
                                    assert(all == bytes@ + rest);
                                },
                                None => {},
                            }
                        }
                    },
                    None => {
                        if d != 'x' {
                            let mut m = String::new();
                            push_str(&mut m, "unknown escape sequence in byte string: \\");
                            m.push(d);
                            return Err(m);
                        }
                        if n - i <= 3 {
                            return Err("incomplete \\x escape in byte string".to_string());
                        }
                        let hi = v[i + 2];
                        let lo = v[i + 3];
                        let value: Option<u32> = parse_hex_pair(hi, lo);
                        proof {
                            assert(v@.subrange(i + 2, i + 4) == seq![hi, lo]);
                        }
                        match value {
                            None => {
                                let mut m = String::new();
                                push_str(&mut m, "invalid \\x escape in byte string: \\x");
                                m.push(hi);
                                m.push(lo);
                                return Err(m);
                            },
                            Some(x) => {
                                assert(parse_hex(v@.subrange(oi + 2, oi + 4)) == Some(x as int));
                                if x > 0x7F {
                                    assert(decode_bytes_from(v@, oi) is None);
                                    let mut m = String::new();
                                    push_str(&mut m, "error[BS001]: byte string contains non-ASCII byte 0x");
                                    push_hex2(&mut m, x);
                                    return Err(m);
                                }
                                bytes.push(x as u8);
                                i = i + 4;
                                proof {
                                    match decode_bytes_from(v@, 0) {
                                        Some(all) => {
                                            let rest = decode_bytes_from(v@, i as int)->Some_0;
                                            assert(all == old_bytes + (seq![x as u8] + rest));
                                            assert(all == bytes@ + rest);
                                        },
                                        None => {},
                                    }
                                }
                            },
                        }
                    },
                }
            } else {
                if (c as u32) > 0x7F {
                    let mut m = String::new();
                    push_str(&mut m, "error[BS001]: byte string contains non-ASCII byte 0x");
                    push_upper_hex(&mut m, c as u32);
                    return Err(m);
                }
                bytes.push(c as u8);
                i = i + 1;
                proof {
                    match decode_bytes_from(v@, 0) {
                        Some(all) => {
                            let rest = decode_bytes_from(v@, i as int)->Some_0;
                            assert(all == old_bytes + (seq![c as u8] + rest));
                            assert(all == bytes@ + rest);
                        },
                        None => {},
                    }
                }
            }
        }
        proof {
            match decode_bytes_from(v@, 0) {
                Some(all) => {
                    assert(bytes@ + seq![] == bytes@);
                },
                None => {},
            }
        }
        Ok(bytes)
    }
}

/// `u8::from_str_radix` on the two characters `hi lo` in base 16.
fn parse_hex_pair(hi: char, lo: char) -> (r: Option<u32>)
    ensures
        match parse_hex(seq![hi, lo]) {
            Some(x) => r == Some(x as u32) && 0 <= x < 256,
            None => r is None,
        },
{
    let a = hex_value_of(hi);
    let b = hex_value_of(lo);
    let ghost h = seq![hi, lo];
    assert(h.drop_first() == seq![lo]);
    assert(seq![hi].drop_last() == Seq::<char>::empty());
    assert(h.drop_last() == seq![hi]);
    assert(seq![lo].drop_last() == Seq::<char>::empty());
    assert(crate::lexer::hex_value(Seq::<char>::empty()) == 0);
    assert(crate::lexer::hex_value(seq![hi]) == crate::lexer::hex_digit_value(hi));
    assert(crate::lexer::hex_value(seq![lo]) == crate::lexer::hex_digit_value(lo));
    assert(crate::lexer::hex_value(h) == crate::lexer::hex_digit_value(hi) * 16 + crate::lexer::hex_digit_value(lo));
    if hi == '+' {
        assert(!crate::lexer::is_hex_digit('+'));
        match b {
            Some(y) => {
                assert(crate::lexer::all_hex(h.drop_first()));
                Some(y)
            },
            None => {
                assert(!crate::lexer::is_hex_digit(h.drop_first()[0]));
                None
            },
        }
    } else {
        match (a, b) {
            (Some(x), Some(y)) => {
                assert(crate::lexer::all_hex(h));
                Some(x * 16 + y)
            },
            _ => {
                assert(!crate::lexer::all_hex(h)) by {
                    if a is None {
                        assert(!crate::lexer::is_hex_digit(h[0]));
                    } else {
                        assert(!crate::lexer::is_hex_digit(h[1]));
                    }
                }
                None
            },
        }
    }
}

fn hex_value_of(c: char) -> (r: Option<u32>)
    ensures
        r is Some <==> crate::lexer::is_hex_digit(c),
        r matches Some(v) ==> v == crate::lexer::hex_digit_value(c) && v < 16,
{
    let u = c as u32;
    if 0x30 <= u && u <= 0x39 {
        Some(u - 0x30)
    } else if 0x61 <= u && u <= 0x66 {
        Some(u - 0x61 + 10)
    } else if 0x41 <= u && u <= 0x46 {
        Some(u - 0x41 + 10)
    } else {
        None
    }
}

/// Upper-case hexadecimal with at least two digits.
fn push_hex2(out: &mut String, v: u32)
    ensures
        final(out)@ == old(out)@ + (if v < 16 { seq!['0'] } else { Seq::<char>::empty() }) + upper_hex(v as nat),
{
    if v < 16 {
        out.push('0');
    }
    push_upper_hex(out, v);
}

} // verus!

verus! {

/// The value of the decimal digits of `s` (a run that fits `u64`).
fn decimal_of(s: &String) -> (r: u64)
    requires
        s@.len() > 0,
        all_digits(s@),
        decimal_value(s@) <= u64::MAX,
    ensures
        r == decimal_value(s@),
{
    let v = chars_of(s.as_str());
    let mut acc: u64 = 0;
    let mut k: usize = 0;
    while k < v.len()
        invariant
            v@ == s@,
            k <= v@.len(),
            acc == decimal_value(v@.take(k as int)),
            all_digits(v@),
            decimal_value(v@) <= u64::MAX,
        decreases v.len() - k,
    {
        assert(v@.take(k + 1).drop_last() == v@.take(k as int));
        proof {
            lemma_decimal_prefix_bound(v@, k + 1);
        }
        let d = (v[k] as u32 - 0x30) as u64;
        assert(crate::lexer::is_digit(v@[k as int]));
        acc = acc * 10 + d;
        k += 1;
    }
    assert(v@.take(k as int) == v@);
    acc
}

proof fn lemma_decimal_prefix_bound(d: Seq<char>, k: int)
    requires
        0 <= k <= d.len(),
        all_digits(d),
    ensures
        0 <= decimal_value(d.take(k)) <= decimal_value(d),
    decreases d.len() - k,
{
    lemma_decimal_nonneg(d.take(k));
    if k < d.len() {
        lemma_decimal_prefix_bound(d, k + 1);
        assert(d.take(k + 1).drop_last() == d.take(k));
        assert(crate::lexer::is_digit(d[k]));
    } else {
        assert(d.take(k) == d);
    }
}

proof fn lemma_decimal_nonneg(d: Seq<char>)
    requires
        all_digits(d),
    ensures
        decimal_value(d) >= 0,
    decreases d.len(),
{
    if d.len() > 0 {
        assert(all_digits(d.drop_last()));
        lemma_decimal_nonneg(d.drop_last());
        assert(crate::lexer::is_digit(d[d.len() - 1]));
    }
}

impl Parser {
    /// Value of the integer token `k`.
    fn integer_value(&self, k: usize) -> (r: Option<u64>)
        requires
            self.wf(),
            k < self.tokens@.len(),
        ensures
            r is Some <==> int_text_ok(self.token_seq()[k as int].1),
            r matches Some(v) ==> v == decimal_value(self.token_seq()[k as int].1) && v <= i64::MAX,
    {
        assert(self.token_seq()[k as int].1 == self.tokens@[k as int].1@);
        if integer_text_fits(&self.tokens[k].1, 9223372036854775807u64) {
            Some(decimal_of(&self.tokens[k].1))
        } else {
            None
        }
    }

    /// The value of the integer token at `k` as a shape dimension, where it fits `usize`.
    fn dim_value(&self, k: usize) -> (r: Option<usize>)
        requires
            self.wf(),
            k < self.tokens@.len(),
        ensures
            r is Some <==> dim_text_ok(self.token_seq()[k as int].1),
            r matches Some(v) ==> v == decimal_value(self.token_seq()[k as int].1),
    {
        assert(self.token_seq()[k as int].1 == self.tokens@[k as int].1@);
        if integer_text_fits(&self.tokens[k].1, usize::MAX as u64) {
            Some(decimal_of(&self.tokens[k].1) as usize)
        } else {
            None
        }
    }

    // ===== types =====

    /// A type: `&T`, `&mut T`, `&[T]`, `&mut [T]`, or a base type with an optional privacy tag.
    fn parse_type(&mut self) -> (r: Result<Type, String>)
        requires
            old(self).wf(),
        ensures
            old(self).kind_ahead(0) matches Some(k) ==> (primitive_type_of(k) is Some && old(self).kind_ahead(1) != Some(Token::Lt)
                ==> r == Ok::<Type, String>(primitive_type_of(k)->0) && final(self).pos == old(self).pos + 1),
            old(self).kind_ahead(0) == Some(Token::Ident) && old(self).text_ahead(0) != "Tensor"@
                && old(self).text_ahead(0) != "usize"@ && old(self).text_ahead(0) != "isize"@
                && old(self).kind_ahead(1) != Some(Token::Lt)
                ==> (r matches Ok(t) && if generic_active(old(self).scopes(), old(self).text_ahead(0)) {
                    t matches Type::TypeParam(n) && n@ == old(self).text_ahead(0)
                } else {
                    t matches Type::Struct(n) && n@ == old(self).text_ahead(0)
                }) && final(self).pos == old(self).pos + 1,
            Parser::reads_on(*final(self), *old(self)),
            final(self).no_struct_literal == old(self).no_struct_literal,
            final(self).expr_id_counter == old(self).expr_id_counter,
            r is Ok ==> Parser::consumed(*final(self), *old(self)),
            r matches Ok(t) ==> type_end(old(self).token_seq(), old(self).scopes(), old(self).position(), t)
                == Some(final(self).position()),
            forall|c: int| #[trigger] old(self).prim_generic_ahead(c) && old(self).kind_ahead(2 + 2 * c) != Some(Token::Lt)
                ==> (r matches Ok(Type::Generic(n, args)) && n@ == old(self).text_ahead(0) && args@.len() == c
                && (forall|i: int| 0 <= i < c ==> #[trigger] args@[i] == old(self).prim_arg(i))
                && final(self).pos == old(self).pos + 2 + 2 * c),
        decreases old(self).tokens@.len() - old(self).pos, 1int,
    {
        if self.at(Token::Amp) {
            self.next();
            let mutable = if self.at(Token::Mut) {
                self.next();
                true
            } else {
                false
            };
            if self.at(Token::LBracket) {
                self.next();
                let elem_ty = self.parse_type()?;
                self.expect(Token::RBracket)?;
                return Ok(Type::Ref { mutable, inner: Box::new(Type::Slice(Box::new(elem_ty))) });
            }
            let inner = Box::new(self.parse_type()?);
            return Ok(Type::Ref { mutable, inner });
        }
        let base = self.parse_base_type()?;
        if self.at(Token::Lt) {
            if let Ok(tag) = self.try_parse_privacy_tag() {
                return Ok(Type::Privacy(Box::new(base), tag));
            }
        }
        Ok(base)
    }

    /// A base type: `Tensor<T, [dims]>`, a primitive, `()`, or a named type with optional
    /// type arguments; a name declared as a generic parameter in scope is a type parameter.
    fn parse_base_type(&mut self) -> (r: Result<Type, String>)
        requires
            old(self).wf(),
        ensures
            Parser::reads_on(*final(self), *old(self)),
            final(self).no_struct_literal == old(self).no_struct_literal,
            final(self).expr_id_counter == old(self).expr_id_counter,
            r is Ok ==> Parser::consumed(*final(self), *old(self)),
            r matches Ok(t) ==> base_type_end(old(self).token_seq(), old(self).scopes(), old(self).position(), t)
                == Some(final(self).position()),
            old(self).kind_ahead(0) matches Some(k) ==> (primitive_type_of(k) is Some
                ==> r == Ok::<Type, String>(primitive_type_of(k)->0) && final(self).pos == old(self).pos + 1),
            old(self).kind_ahead(0) == Some(Token::LParen) ==> if old(self).kind_ahead(1) == Some(Token::RParen) {
                r == Ok::<Type, String>(Type::Unit) && final(self).pos == old(self).pos + 2
            } else {
                r is Err
            },
            old(self).kind_ahead(0) == Some(Token::Ident) ==> {
                let name = old(self).text_ahead(0);
                if name == "Tensor"@ {
                    r matches Ok(t) ==> t is Tensor
                } else if old(self).kind_ahead(1) == Some(Token::Lt) {
                    r matches Ok(t) ==> (t matches Type::Generic(n, _) && n@ == name)
                } else {
                    &&& final(self).pos == old(self).pos + 1
                    &&& r matches Ok(t)
                    &&& if name == "usize"@ {
                        t == Type::U64
                    } else if name == "isize"@ {
                        t == Type::I64
                    } else if generic_active(old(self).scopes(), name) {
                        t matches Type::TypeParam(n) && n@ == name
                    } else {
                        t matches Type::Struct(n) && n@ == name
                    }
                }
            },
            old(self).kind_ahead(0) is None ==> r is Err,
            old(self).kind_ahead(0) matches Some(k) ==> (primitive_type_of(k) is None && k != Token::LParen
                && k != Token::Ident ==> r is Err),
            forall|c: int| #[trigger] old(self).prim_generic_ahead(c) ==> (r matches Ok(Type::Generic(n, args))
                && n@ == old(self).text_ahead(0) && args@.len() == c
                && (forall|i: int| 0 <= i < c ==> #[trigger] args@[i] == old(self).prim_arg(i))
                && final(self).pos == old(self).pos + 2 + 2 * c),
        decreases old(self).tokens@.len() - old(self).pos, 0int,
    {
        let ghost c: int = choose|c: int| old(self).prim_generic_ahead(c);
        let ghost listed: bool = old(self).prim_generic_ahead(c);
        proof {
            if listed {
                assert forall|c2: int| #[trigger] old(self).prim_generic_ahead(c2) implies c2 == c by {
                    old(self).lemma_prim_generic_unique(c, c2);
                }
            }
        }
        proof {
            assert(self.token_seq().len() == self.token_count());
        }
        let ghost toks0 = self.token_seq();
        let ghost sc0 = self.scopes();
        let ghost p0 = self.position();
        if self.at(Token::Ident) {
            let name = self.peek_text();
            if str_eq(name.as_str(), "Tensor") {
                self.next();
                self.expect(Token::Lt)?;
                let dtype = Box::new(self.parse_base_type()?);
                self.expect(Token::Comma)?;
                let shape = self.parse_shape()?;
                self.expect(Token::Gt)?;
                return Ok(Type::Tensor { dtype, shape });
            }
        }
        match self.peek() {
            Some(Token::I8) => { self.next(); Ok(Type::I8) },
            Some(Token::I16) => { self.next(); Ok(Type::I16) },
            Some(Token::I32) => { self.next(); Ok(Type::I32) },
            Some(Token::I64) => { self.next(); Ok(Type::I64) },
            Some(Token::I128) => { self.next(); Ok(Type::I128) },
            Some(Token::U8) => { self.next(); Ok(Type::U8) },
            Some(Token::U16) => { self.next(); Ok(Type::U16) },
            Some(Token::U32) => { self.next(); Ok(Type::U32) },
            Some(Token::U64) => { self.next(); Ok(Type::U64) },
            Some(Token::U128) => { self.next(); Ok(Type::U128) },
            Some(Token::F16) => { self.next(); Ok(Type::F16) },
            Some(Token::F32) => { self.next(); Ok(Type::F32) },
            Some(Token::F64) => { self.next(); Ok(Type::F64) },
            Some(Token::Bool) => { self.next(); Ok(Type::Bool) },
            Some(Token::Char) => { self.next(); Ok(Type::Char) },
            Some(Token::Str) => { self.next(); Ok(Type::Str) },
            Some(Token::SelfType) => { self.next(); Ok(Type::SelfType) },
            Some(Token::LParen) => {
                self.next();
                if self.at(Token::RParen) {
                    self.next();
                    Ok(Type::Unit)
                } else {
                    Err("Tuple types not supported yet".to_string())
                }
            },
            Some(Token::Ident) => {
                let name = self.peek_text();
                self.next();
                if self.at(Token::Lt) {
                    self.next();
                    let mut args: Vec<Type> = Vec::new();
                    let ghost toks = old(self).token_seq();
                    let ghost scopes = old(self).scopes();
                    let ghost first = old(self).position() + 2;
                    assert forall|rest: Seq<Type>| #[trigger] type_args_end(toks, scopes, first, args@ + rest)
                        == type_args_end(toks, scopes, self.position(), rest) by {
                        assert(args@ + rest =~= rest);
                    }
                    while self.peek().is_some() && !self.at(Token::Gt)
                        invariant_except_break
                            listed ==> args@.len() < c && self.pos == old(self).pos + 2 + 2 * args@.len()
                                && old(self).type_arg_is_prim(args@.len() as int)
                                && self.kind_ahead(0) == old(self).kind_ahead(2 + 2 * (args@.len() as int)),
                        invariant
                            listed == old(self).prim_generic_ahead(c),
                            forall|c2: int| #[trigger] old(self).prim_generic_ahead(c2) ==> c2 == c,
                            self.token_seq() == old(self).token_seq(),
                            listed ==> forall|i: int| 0 <= i < args@.len() ==> #[trigger] args@[i] == old(self).prim_arg(i),
                            self.wf(),
                            Parser::consumed(*self, *old(self)),
                            self.expr_id_counter == old(self).expr_id_counter,
                            old(self).kind_ahead(0) == Some(Token::Ident),
                            old(self).kind_ahead(1) == Some(Token::Lt),
                            old(self).text_ahead(0) != "Tensor"@,
                            name@ == old(self).text_ahead(0),
                            toks == old(self).token_seq(),
                            scopes == old(self).scopes(),
                            first == old(self).position() + 2,
                            forall|rest: Seq<Type>| #[trigger] type_args_end(toks, scopes, first, args@ + rest)
                                == type_args_end(toks, scopes, self.position(), rest),
                        ensures
                            listed ==> args@.len() == c && self.pos == old(self).pos + 1 + 2 * c,
                        decreases self.tokens@.len() - self.pos,
                    {
                        let ghost cur = self.position();
                        let ghost before = args@;
                        let ghost i = args@.len() as int;
                        proof {
                            if listed {
                                assert(old(self).type_arg_is_prim(i));
                                if i < c - 1 {
                                    assert(old(self).type_arg_has_comma(i));
                                }
                                assert(self.kind_ahead(0) == old(self).kind_ahead(2 + 2 * i));
                                assert(self.kind_ahead(1) == old(self).kind_ahead(3 + 2 * i));
                            }
                        }
                        let ty = self.parse_base_type()?;
                        let ghost a = ty;
                        args.push(ty);
                        proof {
                            if listed {
                                assert(self.kind_ahead(0) == old(self).kind_ahead(3 + 2 * i));
                                if i + 1 < c {
                                    assert(old(self).type_arg_is_prim(i + 1));
                                    assert(old(self).kind_ahead(2 + 2 * (i + 1)) == old(self).kind_ahead(4 + 2 * i));
                                }
                            }
                        }
                        proof {
                            lemma_args_step(toks, scopes, first, before, a, cur, self.position());
                        }
                        if self.at(Token::Comma) {
                            self.next();
                        } else if self.at(Token::Gt) {
                            break;
                        } else {
                            return Err("Expected ',' or '>' in generic type".to_string());
                        }
                    }
                    let ghost before_gt = self.position();
                    proof {
                        if listed {
                            assert(self.kind_ahead(0) == old(self).kind_ahead(1 + 2 * c));
                        }
                    }
                    self.expect(Token::Gt)?;
                    assert(args@ + Seq::<Type>::empty() =~= args@);
                    assert(kind_at(toks, before_gt) == Some(Token::Gt));
                    assert(type_args_end(toks, scopes, before_gt, Seq::<Type>::empty()) == Some(before_gt + 1));
                    assert(type_args_end(toks, scopes, first, args@) == Some(self.position()));
                    assert(toks0 == toks && sc0 == scopes && first == p0 + 2);
                    let t = Type::Generic(name, args);
                    assert(base_type_end(toks0, sc0, p0, t) == Some(self.position()));
                    Ok(t)
                } else if str_eq(name.as_str(), "usize") {
                    Ok(Type::U64)
                } else if str_eq(name.as_str(), "isize") {
                    Ok(Type::I64)
                } else if self.is_active_generic(&name) {
                    Ok(Type::TypeParam(name))
                } else {
                    assert(self.scopes() == sc0);
                    assert(!generic_active(sc0, name@));
                    Ok(Type::Struct(name))
                }
            },
            _ => Err("Expected type".to_string()),
        }
    }

    /// A privacy tag `<public>`, `<private>` or `<dp(eps: r)>` / `<dp(eps: r, delta: r)>`;
    /// where there is none the position is left as it was.
    fn try_parse_privacy_tag(&mut self) -> (r: Result<PrivacyTag, String>)
        requires
            old(self).wf(),
        ensures
            Parser::reads_on(*final(self), *old(self)),
            final(self).no_struct_literal == old(self).no_struct_literal,
            final(self).expr_id_counter == old(self).expr_id_counter,
            r is Ok ==> Parser::consumed(*final(self), *old(self)),
            r is Err ==> final(self).position() == old(self).position(),
            r matches Ok(t) ==> tag_end(old(self).token_seq(), old(self).position(), t) == Some(final(self).position()),
            (exists|t: PrivacyTag| tag_end(old(self).token_seq(), old(self).position(), t) is Some) ==> r is Ok,
    {
        let pos = self.pos;
        let r = self.parse_privacy_tag();
        if r.is_err() {
            self.pos = pos;
        }
        r
    }

    #[verifier::rlimit(80)]
    fn parse_privacy_tag(&mut self) -> (r: Result<PrivacyTag, String>)
        requires
            old(self).wf(),
        ensures
            Parser::reads_on(*final(self), *old(self)),
            final(self).no_struct_literal == old(self).no_struct_literal,
            final(self).expr_id_counter == old(self).expr_id_counter,
            r is Ok ==> Parser::consumed(*final(self), *old(self)),
            r matches Ok(t) ==> tag_end(old(self).token_seq(), old(self).position(), t) == Some(final(self).position()),
            (exists|t: PrivacyTag| tag_end(old(self).token_seq(), old(self).position(), t) is Some) ==> r is Ok,
    {
        proof {
            reveal_strlit("public");
            reveal_strlit("private");
            reveal_strlit("dp");
            assert("public"@.len() == 6 && "private"@.len() == 7 && "dp"@.len() == 2);
        }
        self.expect(Token::Lt)?;
        if !self.at(Token::Ident) {
            return Err("Expected privacy tag".to_string());
        }
        let name = self.peek_text();
        let tag = if str_eq(name.as_str(), "public") {
            self.next();
            PrivacyTag::Public
        } else if str_eq(name.as_str(), "private") {
            self.next();
            PrivacyTag::Private
        } else if str_eq(name.as_str(), "dp") {
            self.next();
            self.expect(Token::LParen)?;
            if let Some((Token::Ident, key)) = self.next() {
                if !str_eq(key.as_str(), "eps") {
                    let mut m = String::new();
                    push_str(&mut m, "Expected 'eps', got '");
                    push_str(&mut m, key.as_str());
                    push_str(&mut m, "'");
                    return Err(m);
                }
            } else {
                return Err("Expected 'eps'".to_string());
            }
            self.expect(Token::Colon)?;
            let ghost before_eps = self.position();
            let eps = self.parse_rational_literal()?;
            assert(rational_at(old(self).token_seq(), before_eps) == Some((eps@, self.position())));
            let delta = if self.at(Token::Comma) {
                self.next();
                if let Some((Token::Ident, key)) = self.next() {
                    if !str_eq(key.as_str(), "delta") {
                        let mut m = String::new();
                        push_str(&mut m, "Expected 'delta', got '");
                        push_str(&mut m, key.as_str());
                        push_str(&mut m, "'");
                        return Err(m);
                    }
                } else {
                    return Err("Expected 'delta'".to_string());
                }
                self.expect(Token::Colon)?;
                let ghost before_delta = self.position();
                let d = self.parse_rational_literal()?;
                assert(rational_at(old(self).token_seq(), before_delta) == Some((d@, self.position())));
                Some(d)
            } else {
                None
            };
            self.expect(Token::RParen)?;
            PrivacyTag::Differential { eps, delta }
        } else {
            return Err("Expected privacy tag".to_string());
        };
        self.expect(Token::Gt)?;
        Ok(tag)
    }

    /// A rational literal: `n`, `n/d` (integers) or a float, as written.
    fn parse_rational_literal(&mut self) -> (r: Result<String, String>)
        requires
            old(self).wf(),
        ensures
            Parser::reads_on(*final(self), *old(self)),
            final(self).no_struct_literal == old(self).no_struct_literal,
            final(self).expr_id_counter == old(self).expr_id_counter,
            r is Ok ==> Parser::consumed(*final(self), *old(self)),
            r matches Ok(v) ==> match old(self).kind_ahead(0) {
                Some(Token::Float) => v@ == old(self).text_ahead(0) && final(self).pos == old(self).pos + 1,
                Some(Token::Integer) => if old(self).kind_ahead(1) == Some(Token::Slash) {
                    old(self).kind_ahead(2) == Some(Token::Integer)
                        && v@ == old(self).text_ahead(0) + "/"@ + old(self).text_ahead(2)
                        && final(self).pos == old(self).pos + 3
                } else {
                    v@ == old(self).text_ahead(0) && final(self).pos == old(self).pos + 1
                },
                _ => false,
            },
            (old(self).kind_ahead(0) == Some(Token::Float) || (old(self).kind_ahead(0) == Some(Token::Integer)
                && (old(self).kind_ahead(1) != Some(Token::Slash) || old(self).kind_ahead(2) == Some(Token::Integer))))
                ==> r is Ok,
            r is Err ==> final(self).position() == rational_fail_end(old(self).token_seq(), old(self).position()),
    {
        match self.peek() {
            Some(Token::Integer) => {
                let int_part = self.peek_text();
                self.next();
                if self.at(Token::Slash) {
                    self.next();
                    if let Some((Token::Integer, den)) = self.next() {
                        let mut v = String::new();
                        push_str(&mut v, int_part.as_str());
                        push_str(&mut v, "/");
                        push_str(&mut v, den.as_str());
                        Ok(v)
                    } else {
                        Err("Expected integer after '/'".to_string())
                    }
                } else {
                    Ok(int_part)
                }
            },
            Some(Token::Float) => {
                let v = self.peek_text();
                self.next();
                Ok(v)
            },
            _ => Err("Expected rational literal".to_string()),
        }
    }

    /// A tensor shape `[d, ...]`: integer constants, `Dyn`, `Sym<N>` or a bare name.
    fn parse_shape(&mut self) -> (r: Result<Vec<ShapeDim>, String>)
        requires
            old(self).wf(),
        ensures
            old(self).kind_ahead(0) == Some(Token::LBracket) && old(self).kind_ahead(1) == Some(Token::RBracket)
                ==> (r matches Ok(d) && d@.len() == 0) && final(self).pos == old(self).pos + 2,
            Parser::reads_on(*final(self), *old(self)),
            final(self).no_struct_literal == old(self).no_struct_literal,
            final(self).expr_id_counter == old(self).expr_id_counter,
            r is Ok ==> Parser::consumed(*final(self), *old(self)),
            r matches Ok(d) ==> shape_end(old(self).token_seq(), old(self).position(), d@) == Some(final(self).position()),
    {
        let ghost toks = self.token_seq();
        let ghost start = self.position();
        self.expect(Token::LBracket)?;
        let ghost s1 = *self;
        let mut dims: Vec<ShapeDim> = Vec::new();
        while self.peek().is_some() && !self.at(Token::RBracket)
            invariant
                old(self).kind_ahead(0) == Some(Token::LBracket) && old(self).kind_ahead(1) == Some(Token::RBracket)
                    ==> *self == s1 && dims@.len() == 0 && s1.pos == old(self).pos + 1 && s1.tokens == old(self).tokens,
                self.wf(),
                Parser::consumed(*self, *old(self)),
                self.expr_id_counter == old(self).expr_id_counter,
                toks == old(self).token_seq(),
                start == old(self).position(),
                kind_at(toks, start) == Some(Token::LBracket),
                forall|rest: Seq<ShapeDim>| #[trigger] dims_end(toks, start + 1, dims@ + rest) == dims_end(toks, self.position(), rest),
            decreases self.tokens@.len() - self.pos,
        {
            let ghost cur = self.position();
            let ghost before = dims@;
            let k = self.pos;
            let (token, value) = match self.next() {
                Some(tv) => tv,
                None => {
                    return Err("Expected dimension in shape".to_string());
                },
            };
            let dim = match token {
                Token::Ident => {
                    if str_eq(value.as_str(), "Dyn") {
                        ShapeDim::Dyn
                    } else if str_eq(value.as_str(), "Sym") {
                        self.expect(Token::Lt)?;
                        let sym_name = self.parse_ident()?;
                        self.expect(Token::Gt)?;
                        ShapeDim::Sym(sym_name)
                    } else {
                        ShapeDim::Sym(value)
                    }
                },
                Token::Integer => {
                    let num = match self.dim_value(k) {
                        Some(n) => n,
                        None => return Err("Integer literal out of range".to_string()),
                    };
                    ShapeDim::Const(num)
                },
                _ => {
                    return Err("Expected dimension in shape".to_string());
                },
            };
            let ghost d = dim;
            dims.push(dim);
            proof {
                assert(dim_end(toks, cur, d) == Some(self.position()));
                lemma_dims_step(toks, start + 1, before, d, cur, self.position());
            }
            if self.at(Token::Comma) {
                self.next();
                if self.at(Token::RBracket) {
                    break;
                }
            } else if self.at(Token::RBracket) {
                break;
            } else {
                return Err("Expected comma or closing bracket in shape".to_string());
            }
        }
        self.expect(Token::RBracket)?;
        assert(dims@ + Seq::<ShapeDim>::empty() =~= dims@);
        Ok(dims)
    }
}

} // verus!

verus! {

/// The bounds of one `where` entry from token `i`: identifiers up to the first one that a
/// comma follows (the comma is read too) or up to a token that is no identifier. Gives the
/// bound names and the index after them.
pub open spec fn where_bounds(toks: Seq<(Token, Seq<char>)>, i: int) -> (Seq<Seq<char>>, int)
    decreases toks.len() - i,
{
    if kind_at(toks, i) == Some(Token::Ident) {
        if kind_at(toks, i + 1) == Some(Token::Comma) {
            (seq![text_at(toks, i)], i + 2)
        } else {
            let rest = where_bounds(toks, i + 1);
            (seq![text_at(toks, i)] + rest.0, rest.1)
        }
    } else {
        (Seq::empty(), i)
    }
}

/// The bounds of a `where` entry end at or after where they start, within the tokens.
pub proof fn lemma_where_bounds_end(toks: Seq<(Token, Seq<char>)>, i: int)
    requires
        0 <= i <= toks.len(),
    ensures
        i <= where_bounds(toks, i).1 <= toks.len(),
    decreases toks.len() - i,
{
    if kind_at(toks, i) == Some(Token::Ident) && kind_at(toks, i + 1) != Some(Token::Comma) {
        lemma_where_bounds_end(toks, i + 1);
    }
}

/// The entries of a `where` clause from token `i` (`T: A B, U: C ...`): each parameter name
/// with its bounds, and the index after the last entry; `None` where a name is not followed
/// by `:`.
pub open spec fn where_entries(toks: Seq<(Token, Seq<char>)>, i: int) -> Option<(Seq<(Seq<char>, Seq<Seq<char>>)>, int)>
    decreases toks.len() - i,
{
    if kind_at(toks, i) == Some(Token::Ident) {
        if kind_at(toks, i + 1) == Some(Token::Colon) {
            let b = where_bounds(toks, i + 2);
            proof {
                lemma_where_bounds_end(toks, i + 2);
            }
            match where_entries(toks, b.1) {
                Some((es, end)) => Some((seq![(text_at(toks, i), b.0)] + es, end)),
                None => None,
            }
        } else {
            None
        }
    } else {
        Some((Seq::empty(), i))
    }
}

/// An attribute argument value can be read at `n` tokens ahead of `p`: an identifier, a
/// string, a float, an integer, or `n/d` of two integers.
pub open spec fn attr_value_ok(p: Parser, n: int) -> bool {
    match p.kind_ahead(n) {
        Some(Token::Ident) | Some(Token::String) | Some(Token::Float) => true,
        Some(Token::Integer) => if p.kind_ahead(n + 1) == Some(Token::Slash) {
            p.kind_ahead(n + 2) == Some(Token::Integer)
        } else {
            int_text_ok(p.text_ahead(n))
        },
        _ => false,
    }
}

/// `a` is the attribute argument value written `n` tokens ahead of `p`.
pub open spec fn attr_value_is(p: Parser, n: int, a: AttributeArg) -> bool {
    match p.kind_ahead(n) {
        Some(Token::Ident) => a matches AttributeArg::Ident(v) && v@ == p.text_ahead(n),
        Some(Token::String) => a matches AttributeArg::StringLit(v) && v@ == p.text_ahead(n),
        Some(Token::Float) => a matches AttributeArg::Float(v) && v@ == p.text_ahead(n),
        Some(Token::Integer) => if p.kind_ahead(n + 1) == Some(Token::Slash) {
            a matches AttributeArg::Rational(v) && v@ == p.text_ahead(n) + "/"@ + p.text_ahead(n + 2)
        } else {
            a matches AttributeArg::Int(k) && k == decimal_value(p.text_ahead(n))
        },
        _ => false,
    }
}

/// How many tokens the attribute argument value `n` tokens ahead of `p` takes.
pub open spec fn attr_value_len(p: Parser, n: int) -> int {
    if p.kind_ahead(n) == Some(Token::Integer) && p.kind_ahead(n + 1) == Some(Token::Slash) { 3 } else { 1 }
}

/// A `where` entry as its parameter name and bound names.
pub open spec fn where_views(cs: Seq<WhereClause>) -> Seq<(Seq<char>, Seq<Seq<char>>)> {
    cs.map_values(|c: WhereClause| (c.type_param@, string_views(c.bounds@)))
}

impl Parser {
    // ===== generic parameters, where clauses, attributes, parameters =====

    /// `<T: A + B, U, ...>`; a bound may carry its own `<...>`, which is read and dropped.
    fn parse_generic_params(&mut self) -> (r: Result<Vec<GenericParam>, String>)
        requires
            old(self).wf(),
        ensures
            old(self).kind_ahead(0) == Some(Token::Lt) && old(self).kind_ahead(1) == Some(Token::Gt)
                ==> (r matches Ok(v) && v@.len() == 0) && final(self).pos == old(self).pos + 2,
            old(self).kind_ahead(0) == Some(Token::Lt) && old(self).kind_ahead(1) == Some(Token::Ident)
                && old(self).kind_ahead(2) == Some(Token::Gt)
                ==> (r matches Ok(v) && v@.len() == 1 && (v@[0] matches GenericParam::Type { name, bounds }
                    && name@ == old(self).text_ahead(1) && bounds@.len() == 0)) && final(self).pos == old(self).pos + 3,
            Parser::reads_on(*final(self), *old(self)),
            final(self).no_struct_literal == old(self).no_struct_literal,
            final(self).expr_id_counter == old(self).expr_id_counter,
            r is Ok ==> Parser::consumed(*final(self), *old(self)),
        decreases old(self).tokens@.len() - old(self).pos,
    {
        self.expect(Token::Lt)?;
        let ghost s1 = *self;
        let mut params: Vec<GenericParam> = Vec::new();
        while self.peek().is_some() && !self.at(Token::Gt)
            invariant
                old(self).kind_ahead(0) == Some(Token::Lt) && old(self).kind_ahead(1) == Some(Token::Gt)
                    ==> *self == s1 && params@.len() == 0 && s1.pos == old(self).pos + 1 && s1.tokens == old(self).tokens,
                old(self).kind_ahead(0) == Some(Token::Lt) && old(self).kind_ahead(1) == Some(Token::Ident)
                    && old(self).kind_ahead(2) == Some(Token::Gt)
                    ==> s1.pos == old(self).pos + 1 && s1.tokens == old(self).tokens && self.tokens == old(self).tokens
                        && ((*self == s1 && params@.len() == 0) || (self.pos == old(self).pos + 2 && params@.len() == 1
                            && (params@[0] matches GenericParam::Type { name, bounds } && name@ == old(self).text_ahead(1)
                                && bounds@.len() == 0))),
                self.wf(),
                Parser::consumed(*self, *old(self)),
                self.expr_id_counter == old(self).expr_id_counter,
            ensures
                self.wf(),
                Parser::consumed(*self, *old(self)),
                self.expr_id_counter == old(self).expr_id_counter,
                old(self).kind_ahead(0) == Some(Token::Lt) && old(self).kind_ahead(1) == Some(Token::Gt)
                    ==> *self == s1 && params@.len() == 0 && s1.pos == old(self).pos + 1 && s1.tokens == old(self).tokens,
                old(self).kind_ahead(0) == Some(Token::Lt) && old(self).kind_ahead(1) == Some(Token::Ident)
                    && old(self).kind_ahead(2) == Some(Token::Gt)
                    ==> self.tokens == old(self).tokens && self.pos == old(self).pos + 2 && params@.len() == 1
                        && (params@[0] matches GenericParam::Type { name, bounds } && name@ == old(self).text_ahead(1)
                            && bounds@.len() == 0),
            decreases self.tokens@.len() - self.pos,
        {
            let name = self.parse_ident()?;
            let ghost mark = self.pos;
            let mut bounds: Vec<String> = Vec::new();
            if self.at(Token::Colon) {
                self.next();
                loop
                    invariant
                        self.wf(),
                        self.pos >= mark,
                        Parser::consumed(*self, *old(self)),
                        self.expr_id_counter == old(self).expr_id_counter,
                        !(old(self).kind_ahead(0) == Some(Token::Lt) && (old(self).kind_ahead(1) == Some(Token::Gt)
                            || (old(self).kind_ahead(1) == Some(Token::Ident) && old(self).kind_ahead(2) == Some(Token::Gt)))),
                    decreases self.tokens@.len() - self.pos,
                {
                    bounds.push(self.parse_ident()?);
                    if self.at(Token::Lt) {
                        self.parse_generic_params()?;
                    }
                    if self.at(Token::Plus) {
                        self.next();
                    } else {
                        break;
                    }
                }
            }
            params.push(GenericParam::Type { name, bounds });
            if self.at(Token::Comma) {
                self.next();
            } else {
                break;
            }
        }
        self.expect(Token::Gt)?;
        Ok(params)
    }

    /// `<T ...>` where the current token is `<`; nothing otherwise.
    fn parse_opt_generic_params(&mut self) -> (r: Result<Vec<GenericParam>, String>)
        requires
            old(self).wf(),
        ensures
            old(self).kind_ahead(0) == Some(Token::Lt) && old(self).kind_ahead(1) == Some(Token::Ident)
                && old(self).kind_ahead(2) == Some(Token::Gt)
                ==> (r matches Ok(v) && v@.len() == 1 && (v@[0] matches GenericParam::Type { name, bounds }
                    && name@ == old(self).text_ahead(1) && bounds@.len() == 0)) && final(self).pos == old(self).pos + 3,
            Parser::reads_on(*final(self), *old(self)),
            final(self).no_struct_literal == old(self).no_struct_literal,
            final(self).expr_id_counter == old(self).expr_id_counter,
            old(self).kind_ahead(0) != Some(Token::Lt) ==> final(self).pos == old(self).pos && (r matches Ok(v) && v@.len() == 0),
    {
        if self.at(Token::Lt) {
            self.parse_generic_params()
        } else {
            Ok(Vec::new())
        }
    }

    /// `T: A, B, U: C ...` — the bounds of one name end at the first comma.
    fn parse_where_clause(&mut self) -> (r: Result<Vec<WhereClause>, String>)
        requires
            old(self).wf(),
        ensures
            old(self).kind_ahead(0) != Some(Token::Ident) ==> (r matches Ok(v) && v@.len() == 0) && *final(self) == *old(self),
            r is Ok <==> where_entries(old(self).token_seq(), old(self).position()) is Some,
            r matches Ok(cs) ==> where_entries(old(self).token_seq(), old(self).position())
                == Some((where_views(cs@), final(self).position())),
            Parser::reads_on(*final(self), *old(self)),
            final(self).no_struct_literal == old(self).no_struct_literal,
            final(self).expr_id_counter == old(self).expr_id_counter,
    {
        let ghost toks = self.token_seq();
        let ghost first = self.position();
        let mut clauses: Vec<WhereClause> = Vec::new();
        assert(where_views(clauses@) =~= Seq::empty());
        while self.at(Token::Ident)
            invariant
                old(self).kind_ahead(0) != Some(Token::Ident) ==> *self == *old(self) && clauses@.len() == 0,
                self.wf(),
                Parser::reads_on(*self, *old(self)),
                self.no_struct_literal == old(self).no_struct_literal,
                self.expr_id_counter == old(self).expr_id_counter,
                toks == self.token_seq(),
                first == old(self).position(),
                where_entries(toks, first) == match where_entries(toks, self.position()) {
                    Some((es, end)) => Some((where_views(clauses@) + es, end)),
                    None => None,
                },
            decreases self.tokens@.len() - self.pos,
        {
            let ghost i = self.position();
            let ghost before = clauses@;
            let name = self.peek_text();
            self.next();
            self.expect(Token::Colon)?;
            let ghost mark = self.position();
            let ghost mut ended = false;
            let mut bounds: Vec<String> = Vec::new();
            while self.at(Token::Ident)
                invariant_except_break
                    !ended,
                invariant
                    self.wf(),
                    self.pos >= mark,
                    Parser::reads_on(*self, *old(self)),
                    self.no_struct_literal == old(self).no_struct_literal,
                    self.expr_id_counter == old(self).expr_id_counter,
                    toks == self.token_seq(),
                    ended ==> where_bounds(toks, mark) == (string_views(bounds@), self.position()),
                    !ended ==> where_bounds(toks, mark) == (string_views(bounds@) + where_bounds(toks, self.position()).0,
                        where_bounds(toks, self.position()).1),
                ensures
                    where_bounds(toks, mark) == (string_views(bounds@), self.position()),
                    self.wf(),
                    self.pos >= mark,
                    Parser::reads_on(*self, *old(self)),
                    self.no_struct_literal == old(self).no_struct_literal,
                    self.expr_id_counter == old(self).expr_id_counter,
                    toks == self.token_seq(),
                decreases self.tokens@.len() - self.pos,
            {
                let ghost j = self.position();
                let ghost vb = string_views(bounds@);
                let b = self.peek_text();
                bounds.push(b);
                self.next();
                proof {
                    assert(string_views(bounds@) =~= vb.push(text_at(toks, j)));
                }
                if self.at(Token::Comma) {
                    self.next();
                    proof {
                        ended = true;
                        assert(vb + seq![text_at(toks, j)] =~= vb.push(text_at(toks, j)));
                    }
                    break;
                }
                proof {
                    let w = where_bounds(toks, j + 1);
                    assert(vb + (seq![text_at(toks, j)] + w.0) =~= vb.push(text_at(toks, j)) + w.0);
                }
            }
            proof {
                lemma_where_bounds_end(toks, mark);
            }
            let ghost x = (name@, string_views(bounds@));
            clauses.push(WhereClause { type_param: name, bounds });
            proof {
                assert(where_views(clauses@) =~= where_views(before).push(x));
                assert forall|es: Seq<(Seq<char>, Seq<Seq<char>>)>|
                    where_views(before) + (seq![x] + es) =~= #[trigger] (where_views(clauses@) + es) by {}
            }
        }
        proof {
            assert(where_views(clauses@) + Seq::empty() =~= where_views(clauses@));
        }
        Ok(clauses)
    }

    /// `#[name]` and `#[name(arg, ...)]`, as many as there are.
    fn parse_attributes(&mut self) -> (r: Result<Vec<Attribute>, String>)
        requires
            old(self).wf(),
        ensures
            old(self).kind_ahead(0) != Some(Token::Pound) ==> (r matches Ok(v) && v@.len() == 0) && *final(self) == *old(self),
            Parser::reads_on(*final(self), *old(self)),
            final(self).no_struct_literal == old(self).no_struct_literal,
            final(self).expr_id_counter == old(self).expr_id_counter,
            r matches Ok(v) ==> (v@.len() == 0 <==> old(self).kind_ahead(0) != Some(Token::Pound)),
            r matches Ok(v) ==> (v@.len() == 0 ==> final(self).pos == old(self).pos),
            old(self).kind_ahead(0) == Some(Token::Pound) && old(self).kind_ahead(1) == Some(Token::LBracket)
                && old(self).kind_ahead(2) == Some(Token::Ident) && old(self).kind_ahead(3) == Some(Token::RBracket)
                && old(self).kind_ahead(4) != Some(Token::Pound)
                ==> (r matches Ok(v) && v@.len() == 1 && v@[0].name@ == old(self).text_ahead(2) && v@[0].args@.len() == 0)
                    && final(self).pos == old(self).pos + 4,
    {
        let mut attrs: Vec<Attribute> = Vec::new();
        while self.at(Token::Pound)
            invariant
                old(self).kind_ahead(0) != Some(Token::Pound) ==> *self == *old(self) && attrs@.len() == 0,
                old(self).kind_ahead(0) == Some(Token::Pound) && old(self).kind_ahead(1) == Some(Token::LBracket)
                    && old(self).kind_ahead(2) == Some(Token::Ident) && old(self).kind_ahead(3) == Some(Token::RBracket)
                    && old(self).kind_ahead(4) != Some(Token::Pound)
                    ==> (*self == *old(self) && attrs@.len() == 0) || (self.pos == old(self).pos + 4 && attrs@.len() == 1
                        && attrs@[0].name@ == old(self).text_ahead(2) && attrs@[0].args@.len() == 0),
                self.wf(),
                Parser::reads_on(*self, *old(self)),
                self.no_struct_literal == old(self).no_struct_literal,
                self.expr_id_counter == old(self).expr_id_counter,
                attrs@.len() == 0 ==> self.pos == old(self).pos,
                attrs@.len() > 0 ==> old(self).kind_ahead(0) == Some(Token::Pound),
            decreases self.tokens@.len() - self.pos,
        {
            self.next();
            let ghost mark = self.pos;
            self.expect(Token::LBracket)?;
            let name = self.parse_ident()?;
            let mut args: Vec<AttributeArg> = Vec::new();
            if self.at(Token::LParen) {
                self.next();
                while self.peek().is_some() && !self.at(Token::RParen)
                    invariant
                        self.wf(),
                        self.pos >= mark,
                        Parser::reads_on(*self, *old(self)),
                        self.no_struct_literal == old(self).no_struct_literal,
                        self.expr_id_counter == old(self).expr_id_counter,
                        self.pos > old(self).pos,
                        old(self).kind_ahead(0) == Some(Token::Pound),
                        !(old(self).kind_ahead(1) == Some(Token::LBracket) && old(self).kind_ahead(2) == Some(Token::Ident)
                            && old(self).kind_ahead(3) == Some(Token::RBracket) && old(self).kind_ahead(4) != Some(Token::Pound)),
                    decreases self.tokens@.len() - self.pos,
                {
                    args.push(self.parse_attribute_arg()?);
                    if self.at(Token::Comma) {
                        self.next();
                    } else {
                        break;
                    }
                }
                self.expect(Token::RParen)?;
            }
            self.expect(Token::RBracket)?;
            attrs.push(Attribute { name, args });
        }
        Ok(attrs)
    }

    /// `key = value` (the key may be any token) or a bare value.
    fn parse_attribute_arg(&mut self) -> (r: Result<AttributeArg, String>)
        requires
            old(self).wf(),
        ensures
            r is Ok <==> if old(self).kind_ahead(0) is Some && old(self).kind_ahead(1) == Some(Token::Eq) {
                attr_value_ok(*old(self), 2)
            } else {
                attr_value_ok(*old(self), 0)
            },
            r matches Ok(a) ==> if old(self).kind_ahead(0) is Some && old(self).kind_ahead(1) == Some(Token::Eq) {
                a matches AttributeArg::KeyValue(k, v) && k@ == old(self).text_ahead(0) && attr_value_is(*old(self), 2, *v)
                    && final(self).pos == old(self).pos + 2 + attr_value_len(*old(self), 2)
            } else {
                attr_value_is(*old(self), 0, a) && final(self).pos == old(self).pos + attr_value_len(*old(self), 0)
            },
            old(self).kind_ahead(0) == Some(Token::Ident) && old(self).kind_ahead(1) != Some(Token::Eq)
                ==> (r matches Ok(AttributeArg::Ident(v)) && v@ == old(self).text_ahead(0)),
            old(self).kind_ahead(0) is Some && old(self).kind_ahead(1) == Some(Token::Eq) && old(self).kind_ahead(2) == Some(Token::Ident)
                ==> (r matches Ok(AttributeArg::KeyValue(k, v)) && k@ == old(self).text_ahead(0)
                    && (*v matches AttributeArg::Ident(x) && x@ == old(self).text_ahead(2))),
            Parser::reads_on(*final(self), *old(self)),
            final(self).no_struct_literal == old(self).no_struct_literal,
            final(self).expr_id_counter == old(self).expr_id_counter,
            r is Ok ==> Parser::consumed(*final(self), *old(self)),
    {
        if self.peek().is_some() && self.peek_nth(1) == Some(Token::Eq) {
            let key = self.peek_text();
            self.next();
            self.next();
            let ghost s2 = *self;
            proof {
                assert forall|n: int| #[trigger] s2.kind_ahead(n) == old(self).kind_ahead(n + 2)
                    && s2.text_ahead(n) == old(self).text_ahead(n + 2) by {}
                assert(s2.kind_ahead(1) == old(self).kind_ahead(3));
                assert(s2.kind_ahead(2) == old(self).kind_ahead(4));
            }
            let value = self.parse_attribute_arg_value()?;
            return Ok(AttributeArg::KeyValue(key, Box::new(value)));
        }
        self.parse_attribute_arg_value()
    }

    /// An identifier, a string, an integer, a rational `n/d` or a float.
    fn parse_attribute_arg_value(&mut self) -> (r: Result<AttributeArg, String>)
        requires
            old(self).wf(),
        ensures
            r is Ok <==> attr_value_ok(*old(self), 0),
            r matches Ok(a) ==> attr_value_is(*old(self), 0, a) && final(self).pos == old(self).pos + attr_value_len(*old(self), 0),
            old(self).kind_ahead(0) == Some(Token::Ident) || old(self).kind_ahead(0) == Some(Token::String)
                || old(self).kind_ahead(0) == Some(Token::Float) ==> r is Ok && final(self).pos == old(self).pos + 1,
            Parser::reads_on(*final(self), *old(self)),
            final(self).no_struct_literal == old(self).no_struct_literal,
            final(self).expr_id_counter == old(self).expr_id_counter,
            r is Ok ==> Parser::consumed(*final(self), *old(self)),
            r matches Ok(a) ==> match old(self).kind_ahead(0) {
                Some(Token::Ident) => a matches AttributeArg::Ident(v) && v@ == old(self).text_ahead(0),
                Some(Token::String) => a matches AttributeArg::StringLit(v) && v@ == old(self).text_ahead(0),
                Some(Token::Float) => a matches AttributeArg::Float(v) && v@ == old(self).text_ahead(0),
                Some(Token::Integer) => if old(self).kind_ahead(1) == Some(Token::Slash) {
                    a matches AttributeArg::Rational(v)
                        && v@ == old(self).text_ahead(0) + "/"@ + old(self).text_ahead(2)
                } else {
                    a matches AttributeArg::Int(n) && n == decimal_value(old(self).text_ahead(0))
                },
                _ => false,
            },
    {
        match self.peek() {
            Some(Token::Ident) => {
                let v = self.peek_text();
                self.next();
                Ok(AttributeArg::Ident(v))
            },
            Some(Token::String) => {
                let v = self.peek_text();
                self.next();
                Ok(AttributeArg::StringLit(v))
            },
            Some(Token::Integer) => {
                let int_part = self.peek_text();
                if self.peek_nth(1) == Some(Token::Slash) {
                    self.next();
                    self.next();
                    if let Some((Token::Integer, den)) = self.next() {
                        let mut v = String::new();
                        push_str(&mut v, int_part.as_str());
                        push_str(&mut v, "/");
                        push_str(&mut v, den.as_str());
                        Ok(AttributeArg::Rational(v))
                    } else {
                        Err("Expected integer after '/' in rational".to_string())
                    }
                } else {
                    let num = match self.integer_value(self.pos) {
                        Some(n) => n,
                        None => return Err("Integer literal out of range".to_string()),
                    };
                    self.next();
                    Ok(AttributeArg::Int(num as i64))
                }
            },
            Some(Token::Float) => {
                let v = self.peek_text();
                self.next();
                Ok(AttributeArg::Float(v))
            },
            _ => Err("Expected attribute argument value".to_string()),
        }
    }

    /// Parameters up to (not including) `)`: `self`, `&self`, `&mut self`, `name: T`.
    fn parse_params(&mut self) -> (r: Result<Vec<Param>, String>)
        requires
            old(self).wf(),
        ensures
            old(self).kind_ahead(0) == Some(Token::RParen) ==> (r matches Ok(v) && v@.len() == 0) && *final(self) == *old(self),
            old(self).amp_without_self() ==> (r matches Err(m) && m@ == "Expected 'self' after '&'"@),
            old(self).self_param_len() > 0 && old(self).kind_ahead(old(self).self_param_len()) == Some(Token::RParen)
                ==> (r matches Ok(ps) && ps@.len() == 1 && old(self).self_param_is(ps@[0]))
                    && final(self).pos == old(self).pos + old(self).self_param_len(),
            old(self).self_and_typed_ahead() ==> (r matches Ok(ps) && ps@.len() == 2 && old(self).self_param_is(ps@[0])
                && ps@[1].name@ == old(self).text_ahead(old(self).self_param_len() + 1)
                && Some(ps@[1].ty) == primitive_type_of(old(self).kind_ahead(old(self).self_param_len() + 3)->0))
                && final(self).pos == old(self).pos + old(self).self_param_len() + 4,
            Parser::reads_on(*final(self), *old(self)),
            final(self).no_struct_literal == old(self).no_struct_literal,
            final(self).expr_id_counter == old(self).expr_id_counter,
            r matches Ok(ps) ==> params_end(old(self).token_seq(), old(self).scopes(), old(self).position(), ps@)
                == Some(final(self).position()),
    {
        let ghost n = old(self).self_param_len();
        let ghost close = n > 0 && old(self).kind_ahead(n) == Some(Token::RParen);
        let ghost typed = old(self).self_and_typed_ahead();
        let ghost toks = self.token_seq();
        let ghost scopes = self.scopes();
        let ghost first = self.position();
        let ghost mut stopped = false;
        let mut params: Vec<Param> = Vec::new();
        assert forall|rest: Seq<Param>| #[trigger] params_end(toks, scopes, first, params@ + rest)
            == params_end(toks, scopes, self.position(), rest) by {
            assert(params@ + rest =~= rest);
        }
        while self.peek().is_some() && !self.at(Token::RParen)
            invariant_except_break
                !stopped,
                old(self).kind_ahead(0) == Some(Token::RParen) ==> *self == *old(self) && params@.len() == 0,
                params@.len() == 0 ==> self.pos == old(self).pos,
                old(self).amp_without_self() ==> params@.len() == 0,
                forall|rest: Seq<Param>| #[trigger] params_end(toks, scopes, first, params@ + rest)
                    == params_end(toks, scopes, self.position(), rest),
                close ==> params@.len() == 0 || (params@.len() == 1 && old(self).self_param_is(params@[0])
                    && self.pos == old(self).pos + n),
                typed ==> params@.len() == 0 || (params@.len() == 1 && old(self).self_param_is(params@[0])
                    && self.pos == old(self).pos + n + 1),
            invariant
                n == old(self).self_param_len(),
                close == (n > 0 && old(self).kind_ahead(n) == Some(Token::RParen)),
                typed == old(self).self_and_typed_ahead(),
                self.wf(),
                Parser::reads_on(*self, *old(self)),
                self.no_struct_literal == old(self).no_struct_literal,
                self.expr_id_counter == old(self).expr_id_counter,
                toks == self.token_seq(),
                scopes == self.scopes(),
                first == old(self).position(),
            ensures
                old(self).kind_ahead(0) == Some(Token::RParen) ==> *self == *old(self) && params@.len() == 0,
                stopped ==> params_end(toks, scopes, first, params@) == Some(self.position()),
                !old(self).amp_without_self(),
                close ==> params@.len() == 1 && old(self).self_param_is(params@[0]) && self.pos == old(self).pos + n,
                typed ==> params@.len() == 2 && old(self).self_param_is(params@[0])
                    && params@[1].name@ == old(self).text_ahead(n + 1)
                    && Some(params@[1].ty) == primitive_type_of(old(self).kind_ahead(n + 3)->0)
                    && self.pos == old(self).pos + n + 4,
                !stopped ==> (kind_at(toks, self.position()) is None || kind_at(toks, self.position()) == Some(Token::RParen))
                    && forall|rest: Seq<Param>| #[trigger] params_end(toks, scopes, first, params@ + rest)
                        == params_end(toks, scopes, self.position(), rest),
            decreases self.tokens@.len() - self.pos,
        {
            let ghost cur = self.position();
            let ghost before = params@;
            proof {
                if typed && params@.len() == 1 {
                    assert(self.kind_ahead(0) == old(self).kind_ahead(n + 1));
                    assert(self.text_ahead(0) == old(self).text_ahead(n + 1));
                    assert(self.kind_ahead(1) == old(self).kind_ahead(n + 2));
                    assert(self.kind_ahead(2) == old(self).kind_ahead(n + 3));
                    assert(self.kind_ahead(3) == old(self).kind_ahead(n + 4));
                }
                if (typed || close) && params@.len() == 0 {
                    assert(self.kind_ahead(1) == old(self).kind_ahead(1));
                    assert(self.kind_ahead(n) == old(self).kind_ahead(n));
                }
            }
            if self.at(Token::Amp) {
                self.next();
                let is_mut = if self.at(Token::Mut) {
                    self.next();
                    true
                } else {
                    false
                };
                if self.at(Token::SelfLower) {
                    self.next();
                    let ty = Type::Ref { mutable: is_mut, inner: Box::new(Type::SelfType) };
                    let param = Param { name: "self".to_string(), ty };
                    let ghost p = param;
                    params.push(param);
                    if self.at(Token::Comma) {
                        self.next();
                    }
                    proof {
                        lemma_params_step(toks, scopes, p, cur, self.position());
                        lemma_params_prefix(toks, scopes, first, before, p, cur, self.position());
                    }
                    continue;
                } else {
                    return Err("Expected 'self' after '&'".to_string());
                }
            } else if self.at(Token::SelfLower) {
                self.next();
                let param = Param { name: "self".to_string(), ty: Type::SelfType };
                let ghost p = param;
                params.push(param);
                if self.at(Token::Comma) {
                    self.next();
                }
                proof {
                    lemma_params_step(toks, scopes, p, cur, self.position());
                    lemma_params_prefix(toks, scopes, first, before, p, cur, self.position());
                }
                continue;
            }
            let name = self.parse_ident()?;
            self.expect(Token::Colon)?;
            let ty = self.parse_type()?;
            let param = Param { name, ty };
            let ghost p = param;
            let ghost k = self.position();
            params.push(param);
            if self.at(Token::Comma) {
                self.next();
                proof {
                    lemma_params_step(toks, scopes, p, cur, self.position());
                    lemma_params_prefix(toks, scopes, first, before, p, cur, self.position());
                }
            } else {
                proof {
                    stopped = true;
                    lemma_params_last(toks, scopes, p, cur, k);
                    assert(seq![p] + Seq::<Param>::empty() =~= seq![p]);
                    assert(params_end(toks, scopes, first, before + seq![p]) == params_end(toks, scopes, cur, seq![p]));
                    assert(params@ =~= before + seq![p]);
                }
                break;
            }
        }
        proof {
            if !stopped {
                assert(params@ + Seq::<Param>::empty() =~= params@);
                lemma_params_none(toks, scopes, self.position());
            }
        }
        Ok(params)
    }

    /// An optional `-> T`.
    fn parse_opt_return_type(&mut self) -> (r: Result<Option<Type>, String>)
        requires
            old(self).wf(),
        ensures
            old(self).kind_ahead(0) != Some(Token::Arrow) ==> r == Ok::<Option<Type>, String>(None) && *final(self) == *old(self),
            old(self).kind_ahead(0) == Some(Token::Arrow) && (old(self).kind_ahead(1) matches Some(k) && primitive_type_of(k) is Some)
                && old(self).kind_ahead(2) != Some(Token::Lt)
                ==> r == Ok::<Option<Type>, String>(Some(primitive_type_of(old(self).kind_ahead(1)->0)->0))
                    && final(self).pos == old(self).pos + 2,
            Parser::reads_on(*final(self), *old(self)),
            final(self).no_struct_literal == old(self).no_struct_literal,
            final(self).expr_id_counter == old(self).expr_id_counter,
            r matches Ok(None) ==> final(self).pos == old(self).pos,
            r matches Ok(Some(t)) ==> old(self).kind_ahead(0) == Some(Token::Arrow)
                && type_end(old(self).token_seq(), old(self).scopes(), old(self).position() + 1, t) == Some(final(self).position()),
            old(self).kind_ahead(0) == Some(Token::Arrow) ==> r !is Ok || r matches Ok(Some(_)),
    {
        if self.at(Token::Arrow) {
            self.next();
            Ok(Some(self.parse_type()?))
        } else {
            Ok(None)
        }
    }

    /// Skips one `pub` or `priv`.
    fn skip_visibility(&mut self)
        requires
            old(self).wf(),
        ensures
            Parser::reads_on(*final(self), *old(self)),
            final(self).pos == if old(self).kind_ahead(0) == Some(Token::Pub) || old(self).kind_ahead(0) == Some(Token::Priv) {
                old(self).pos + 1
            } else {
                old(self).pos as int
            },
            final(self).no_struct_literal == old(self).no_struct_literal,
            final(self).expr_id_counter == old(self).expr_id_counter,
    {
        if self.at(Token::Pub) || self.at(Token::Priv) {
            self.next();
        }
    }

    /// A method signature ending in `;` (interfaces).
    fn parse_fn_sig(&mut self) -> (r: Result<FnSig, String>)
        requires
            old(self).wf(),
        ensures
            old(self).kind_ahead(0) == Some(Token::Fn) && old(self).kind_ahead(1) == Some(Token::Ident)
                && old(self).kind_ahead(2) == Some(Token::LParen) && old(self).kind_ahead(3) == Some(Token::RParen)
                && old(self).kind_ahead(4) == Some(Token::Semicolon)
                ==> (r matches Ok(s) && s.name@ == old(self).text_ahead(1) && s.params@.len() == 0
                    && s.return_type is None && s.generic_params@.len() == 0) && final(self).pos == old(self).pos + 5,
            Parser::reads_on(*final(self), *old(self)),
            final(self).no_struct_literal == old(self).no_struct_literal,
            final(self).expr_id_counter == old(self).expr_id_counter,
            r is Ok ==> Parser::consumed(*final(self), *old(self)),
    {
        self.skip_visibility();
        self.expect(Token::Fn)?;
        let name = self.parse_ident()?;
        let generic_params = self.parse_opt_generic_params()?;
        self.push_generic_scope(&generic_params);
        let inner = self.parse_fn_sig_rest();
        self.pop_generic_scope();
        let (params, return_type) = inner?;
        self.expect(Token::Semicolon)?;
        Ok(FnSig { name, params, return_type, generic_params })
    }

    fn parse_fn_sig_rest(&mut self) -> (r: Result<(Vec<Param>, Option<Type>), String>)
        requires
            old(self).wf(),
        ensures
            old(self).kind_ahead(0) == Some(Token::LParen) && old(self).kind_ahead(1) == Some(Token::RParen)
                && old(self).kind_ahead(2) != Some(Token::Arrow)
                ==> (r matches Ok((ps, rt)) && ps@.len() == 0 && rt is None) && final(self).pos == old(self).pos + 2,
            Parser::reads_on(*final(self), *old(self)),
            final(self).no_struct_literal == old(self).no_struct_literal,
            final(self).expr_id_counter == old(self).expr_id_counter,
            r is Ok ==> Parser::consumed(*final(self), *old(self)),
    {
        self.expect(Token::LParen)?;
        let params = self.parse_params()?;
        self.expect(Token::RParen)?;
        let return_type = self.parse_opt_return_type()?;
        Ok((params, return_type))
    }
}

} // verus!

verus! {

/// The tokens that can begin an item: an attribute, a visibility, or an item keyword.
pub open spec fn item_start(k: Option<Token>) -> bool {
    match k {
        Some(Token::Pound) | Some(Token::Pub) | Some(Token::Priv) | Some(Token::Mod) | Some(Token::Fn)
        | Some(Token::Model) | Some(Token::Implement) | Some(Token::Interface) | Some(Token::Use)
        | Some(Token::Struct) | Some(Token::Enum) | Some(Token::Const) => true,
        _ => false,
    }
}

/// The tokens that carry an expression on after an operand: an index, a cast, a binary
/// operator or a range.
pub open spec fn continues_expr(k: Option<Token>) -> bool {
    match k {
        Some(Token::LBracket) | Some(Token::As) | Some(Token::Star) | Some(Token::Slash) | Some(Token::Percent)
        | Some(Token::Plus) | Some(Token::Minus) | Some(Token::EqEq) | Some(Token::Neq) | Some(Token::Lt)
        | Some(Token::Gt) | Some(Token::Le) | Some(Token::Ge) | Some(Token::And) | Some(Token::Or)
        | Some(Token::Range) => true,
        _ => false,
    }
}

/// The parser stands on an integer literal that is a whole expression (the next token does
/// not carry it on), and an expression id is left to give.
pub open spec fn at_lone_int(p: Parser) -> bool {
    &&& int_ok(p, 0)
    &&& !continues_expr(p.kind_ahead(1))
    &&& p.id_counter() < usize::MAX
}

/// From `p` to `q`, the integer literal at `p` was read as the expression `r`: one token and
/// one id used.
pub open spec fn int_read(p: Parser, q: Parser, r: Result<Expr, String>) -> bool {
    &&& r matches Ok(e) && (e.kind matches ExprKind::Literal(Literal::Int(v)) && v == decimal_value(p.text_ahead(0)))
        && e.id == p.id_counter()
    &&& q.position() == p.position() + 1
    &&& q.id_counter() == p.id_counter() + 1
    &&& q.token_seq() == p.token_seq()
    &&& q.token_count() == p.token_count()
    &&& q.struct_literals_off() == p.struct_literals_off()
    &&& q.scopes() == p.scopes()
    &&& q.wf()
}

/// The binding level at which token `k` carries an expression on: index 0, cast 1,
/// `* / %` 2, `+ -` 3, comparisons 4, `&&` 5, `||` 6, range 7. `k` continues an expression
/// parsed at `level` where its own level is at most `level`.
pub open spec fn continues_at(k: Option<Token>, level: int) -> bool {
    match k {
        Some(Token::LBracket) => 0 <= level,
        Some(Token::As) => 1 <= level,
        Some(Token::Star) | Some(Token::Slash) | Some(Token::Percent) => 2 <= level,
        Some(Token::Plus) | Some(Token::Minus) => 3 <= level,
        Some(Token::EqEq) | Some(Token::Neq) | Some(Token::Lt) | Some(Token::Gt) | Some(Token::Le)
        | Some(Token::Ge) => 4 <= level,
        Some(Token::And) => 5 <= level,
        Some(Token::Or) => 6 <= level,
        Some(Token::Range) => 7 <= level,
        _ => false,
    }
}

/// The parser stands on a name that is a whole operand: not the start of a path, a call, a
/// struct literal, `Sym<..>` or a `.` access.
pub open spec fn ident_alone(p: Parser) -> bool {
    &&& p.kind_ahead(0) == Some(Token::Ident)
    &&& p.kind_ahead(1) != Some(Token::PathSep)
    &&& p.kind_ahead(1) != Some(Token::LParen)
    &&& p.kind_ahead(1) != Some(Token::LBrace)
    &&& p.kind_ahead(1) != Some(Token::Lt)
    &&& p.kind_ahead(1) != Some(Token::Dot)
}

/// The parser stands on an operand (a readable integer literal or a lone name) that an
/// expression parsed at `level` ends after, and an expression id is left to give.
pub open spec fn atom_then(p: Parser, level: int) -> bool {
    &&& int_ok(p, 0) || ident_alone(p)
    &&& !continues_at(p.kind_ahead(1), level)
    &&& p.id_counter() < usize::MAX
}

/// From `p` to `q`, the name at `p` was read as the expression `r`: one token and one id used.
pub open spec fn ident_read(p: Parser, q: Parser, r: Result<Expr, String>) -> bool {
    &&& r matches Ok(e) && (e.kind matches ExprKind::Ident(n) && n@ == p.text_ahead(0)) && e.id == p.id_counter()
    &&& q.position() == p.position() + 1
    &&& q.id_counter() == p.id_counter() + 1
    &&& q.token_seq() == p.token_seq()
    &&& q.token_count() == p.token_count()
    &&& q.struct_literals_off() == p.struct_literals_off()
    &&& q.scopes() == p.scopes()
    &&& q.wf()
}

/// From `p` to `q`, the operand at `p` was read as the expression `r`.
pub open spec fn atom_read(p: Parser, q: Parser, r: Result<Expr, String>) -> bool {
    if p.kind_ahead(0) == Some(Token::Integer) { int_read(p, q, r) } else { ident_read(p, q, r) }
}

/// Token `i` is an integer literal that can be read as a number.
pub open spec fn int_at_ok(toks: Seq<(Token, Seq<char>)>, i: int) -> bool {
    kind_at(toks, i) == Some(Token::Integer) && int_text_ok(text_at(toks, i))
}

/// Token `i` is a primitive type name.
pub open spec fn prim_at(toks: Seq<(Token, Seq<char>)>, i: int) -> bool {
    kind_at(toks, i) matches Some(k) && primitive_type_of(k) is Some
}

/// The number of tokens of a simple statement at token `i` of a block: `let x = N;`,
/// `let x: T = N;` with `T` a primitive type, `x = N;`, `N;`, or a last `x` or `N` right
/// before `}`; 0 where none of these stands there.
pub open spec fn simple_stmt_len(toks: Seq<(Token, Seq<char>)>, i: int) -> int {
    if kind_at(toks, i) == Some(Token::Let) && kind_at(toks, i + 1) == Some(Token::Ident)
        && kind_at(toks, i + 2) == Some(Token::Eq) && int_at_ok(toks, i + 3) && kind_at(toks, i + 4) == Some(Token::Semicolon) {
        5
    } else if kind_at(toks, i) == Some(Token::Let) && kind_at(toks, i + 1) == Some(Token::Ident)
        && kind_at(toks, i + 2) == Some(Token::Colon) && prim_at(toks, i + 3) && kind_at(toks, i + 4) == Some(Token::Eq)
        && int_at_ok(toks, i + 5) && kind_at(toks, i + 6) == Some(Token::Semicolon) {
        7
    } else if kind_at(toks, i) == Some(Token::Ident) && kind_at(toks, i + 1) == Some(Token::Eq) && int_at_ok(toks, i + 2)
        && kind_at(toks, i + 3) == Some(Token::Semicolon) {
        4
    } else if int_at_ok(toks, i) && kind_at(toks, i + 1) == Some(Token::Semicolon) {
        2
    } else if (int_at_ok(toks, i) || kind_at(toks, i) == Some(Token::Ident)) && kind_at(toks, i + 1) == Some(Token::RBrace) {
        1
    } else {
        0
    }
}

/// The expression is the integer literal written at token `i`.
pub open spec fn int_literal_at(toks: Seq<(Token, Seq<char>)>, i: int, e: Expr) -> bool {
    e.kind matches ExprKind::Literal(Literal::Int(v)) && v == decimal_value(text_at(toks, i))
}

/// The statement `s` is the simple statement written at token `i` (see [`simple_stmt_len`]),
/// whatever ids its expressions carry.
pub open spec fn stmt_at(toks: Seq<(Token, Seq<char>)>, i: int, s: Stmt) -> bool {
    let len = simple_stmt_len(toks, i);
    if len == 5 {
        s matches Stmt::Let(l) && l.name@ == text_at(toks, i + 1) && l.ty is None && !l.persist && !l.mutable
            && int_literal_at(toks, i + 3, *l.init)
    } else if len == 7 {
        s matches Stmt::Let(l) && l.name@ == text_at(toks, i + 1) && l.ty == primitive_type_of(kind_at(toks, i + 3)->0)
            && !l.persist && !l.mutable && int_literal_at(toks, i + 5, *l.init)
    } else if len == 4 {
        s matches Stmt::Assign(a) && (a.target.kind matches ExprKind::Ident(n) && n@ == text_at(toks, i))
            && int_literal_at(toks, i + 2, *a.expr)
    } else if len == 2 {
        s matches Stmt::ExprStmt(e) && int_literal_at(toks, i, e)
    } else if len == 1 {
        s matches Stmt::ExprStmt(e) && if kind_at(toks, i) == Some(Token::Integer) {
            int_literal_at(toks, i, e)
        } else {
            e.kind matches ExprKind::Ident(n) && n@ == text_at(toks, i)
        }
    } else {
        false
    }
}

/// The statements `stmts` are the simple statements written one after another from token `i`.
pub open spec fn stmts_at(toks: Seq<(Token, Seq<char>)>, i: int, stmts: Seq<Stmt>) -> bool
    decreases stmts.len(),
{
    if stmts.len() == 0 {
        true
    } else {
        simple_stmt_len(toks, i) > 0 && stmt_at(toks, i, stmts[0])
            && stmts_at(toks, i + simple_stmt_len(toks, i), stmts.drop_first())
    }
}

proof fn lemma_stmts_at_step(toks: Seq<(Token, Seq<char>)>, first: int, before: Seq<Stmt>, s: Stmt, cur: int)
    requires
        forall|rest: Seq<Stmt>| #[trigger] stmts_at(toks, first, before + rest) == stmts_at(toks, cur, rest),
        simple_stmt_len(toks, cur) > 0,
        stmt_at(toks, cur, s),
    ensures
        forall|rest: Seq<Stmt>| #[trigger] stmts_at(toks, first, before.push(s) + rest)
            == stmts_at(toks, cur + simple_stmt_len(toks, cur), rest),
{
    assert forall|rest: Seq<Stmt>| #[trigger] stmts_at(toks, first, before.push(s) + rest)
        == stmts_at(toks, cur + simple_stmt_len(toks, cur), rest) by {
        assert(before.push(s) + rest =~= before + (seq![s] + rest));
        assert((seq![s] + rest).drop_first() =~= rest);
        assert((seq![s] + rest)[0] == s);
        assert(stmts_at(toks, first, before + (seq![s] + rest)) == stmts_at(toks, cur, seq![s] + rest));
    }
}

/// Simple statements (see [`simple_stmt_len`]) from token `i` up to a `}`: how many, and
/// the index of the `}`.
pub open spec fn simple_stmts(toks: Seq<(Token, Seq<char>)>, i: int) -> Option<(nat, int)>
    decreases toks.len() - i,
{
    if kind_at(toks, i) == Some(Token::RBrace) {
        Some((0, i))
    } else if 0 <= i && simple_stmt_len(toks, i) > 0 && i + simple_stmt_len(toks, i) <= toks.len() {
        match simple_stmts(toks, i + simple_stmt_len(toks, i)) {
            Some((c, e)) => Some((c + 1, e)),
            None => None,
        }
    } else {
        None
    }
}

/// Where the body of a simple function whose name is token `i` - 1 starts: after `()` and
/// an optional `-> T` (`T` a primitive type), at a `{`.
pub open spec fn simple_fn_body_at(toks: Seq<(Token, Seq<char>)>, i: int) -> int {
    if kind_at(toks, i + 4) == Some(Token::Arrow) && prim_at(toks, i + 5) { i + 6 } else { i + 4 }
}

/// A simple function from token `i`: `fn name() [-> T] { simple statements }` with `T` a
/// primitive type. Gives its name, its return type, how many statements its body has, and the
/// index after its `}`.
pub open spec fn simple_fn_at(toks: Seq<(Token, Seq<char>)>, i: int) -> Option<(Seq<char>, Option<Type>, nat, int)> {
    if kind_at(toks, i) == Some(Token::Fn) && kind_at(toks, i + 1) == Some(Token::Ident)
        && kind_at(toks, i + 2) == Some(Token::LParen) && kind_at(toks, i + 3) == Some(Token::RParen)
        && kind_at(toks, simple_fn_body_at(toks, i)) == Some(Token::LBrace) {
        let ret = if simple_fn_body_at(toks, i) == i + 6 { primitive_type_of(kind_at(toks, i + 5)->0) } else { None };
        match simple_stmts(toks, simple_fn_body_at(toks, i) + 1) {
            Some((c, e)) => Some((text_at(toks, i + 1), ret, c, e + 1)),
            None => None,
        }
    } else {
        None
    }
}

/// A program of simple functions (see [`simple_fn_at`]) from token `i` to the end of the
/// tokens: for each function its name, return type and number of statements.
pub open spec fn simple_program(toks: Seq<(Token, Seq<char>)>, i: int) -> Option<Seq<(Seq<char>, Option<Type>, nat)>>
    decreases toks.len() - i,
{
    if i == toks.len() {
        Some(Seq::empty())
    } else {
        match simple_fn_at(toks, i) {
            Some((n, t, c, e)) => if i < e <= toks.len() {
                match simple_program(toks, e) {
                    Some(rest) => Some(seq![(n, t, c)] + rest),
                    None => None,
                }
            } else {
                None
            },
            None => None,
        }
    }
}

/// Where each function of a simple program (see [`simple_program`]) from token `i` starts.
pub open spec fn simple_fn_starts(toks: Seq<(Token, Seq<char>)>, i: int) -> Seq<int>
    decreases toks.len() - i,
{
    if i == toks.len() {
        Seq::empty()
    } else {
        match simple_fn_at(toks, i) {
            Some((n, t, c, e)) => if i < e <= toks.len() { seq![i] + simple_fn_starts(toks, e) } else { Seq::empty() },
            None => Seq::empty(),
        }
    }
}

/// The body of `f` holds the simple statements written in the body of the simple function
/// (see [`simple_fn_at`]) at token `i`.
pub open spec fn fn_body_at(toks: Seq<(Token, Seq<char>)>, i: int, f: FnDef) -> bool {
    stmts_at(toks, simple_fn_body_at(toks, i) + 1, f.body.stmts@)
}

/// A function item as a simple-program entry: its name, return type and number of
/// statements (other items as an empty entry).
pub open spec fn item_entry(it: Item) -> (Seq<char>, Option<Type>, nat) {
    match it {
        Item::FnDef(f) => (f.name@, f.return_type, f.body.stmts@.len()),
        _ => (Seq::empty(), None, 0),
    }
}

/// The simple-program entries of a list of items.
pub open spec fn program_prefix(items: Seq<Item>) -> Seq<(Seq<char>, Option<Type>, nat)> {
    items.map_values(|it: Item| item_entry(it))
}

/// The function `f` is the one a simple-program entry describes.
pub open spec fn fn_described(f: FnDef, d: (Seq<char>, Option<Type>, nat)) -> bool {
    f.name@ == d.0 && f.params@.len() == 0 && f.return_type == d.1 && f.body.stmts@.len() == d.2
}

/// The operator of a compound assignment token (`+=` and the like).
pub open spec fn compound_of(t: Token) -> Option<BinaryOp> {
    match t {
        Token::PlusEq => Some(BinaryOp::Add),
        Token::MinusEq => Some(BinaryOp::Sub),
        Token::StarEq => Some(BinaryOp::Mul),
        Token::SlashEq => Some(BinaryOp::Div),
        Token::PercentEq => Some(BinaryOp::Mod),
        _ => None,
    }
}

/// The binary operator a token stands for, with its binding level.
pub open spec fn binop_of(t: Token) -> Option<(BinaryOp, int)> {
    match t {
        Token::Star => Some((BinaryOp::Mul, 2)),
        Token::Slash => Some((BinaryOp::Div, 2)),
        Token::Percent => Some((BinaryOp::Mod, 2)),
        Token::Plus => Some((BinaryOp::Add, 3)),
        Token::Minus => Some((BinaryOp::Sub, 3)),
        Token::EqEq => Some((BinaryOp::Eq, 4)),
        Token::Neq => Some((BinaryOp::Neq, 4)),
        Token::Lt => Some((BinaryOp::Lt, 4)),
        Token::Gt => Some((BinaryOp::Gt, 4)),
        Token::Le => Some((BinaryOp::Le, 4)),
        Token::Ge => Some((BinaryOp::Ge, 4)),
        Token::And => Some((BinaryOp::And, 5)),
        Token::Or => Some((BinaryOp::Or, 6)),
        _ => None,
    }
}

/// The parser stands on `a op b` of two integer literals, where `op` binds at or below
/// `level` and the token after `b` does not carry an expression parsed at `level` on; three
/// expression ids are left to give.
pub open spec fn at_int_pair(p: Parser, level: int) -> bool {
    &&& int_ok(p, 0)
    &&& (p.kind_ahead(1) matches Some(t) && (binop_of(t) matches Some((_, lv)) && lv <= level))
    &&& int_ok(p, 2)
    &&& !continues_at(p.kind_ahead(3), level)
    &&& p.id_counter() + 2 < usize::MAX
}

/// The operator and level of the pair at `p`.
pub open spec fn pair_op(p: Parser) -> (BinaryOp, int) {
    binop_of(p.kind_ahead(1)->0)->0
}

/// From `p` to `q`, the pair `a op b` at `p` was read as the expression `r`: three tokens
/// and three ids used.
pub open spec fn int_pair_read(p: Parser, q: Parser, r: Result<Expr, String>) -> bool {
    &&& r matches Ok(e) && (e.kind matches ExprKind::BinaryOp { op, left, right } && op == pair_op(p).0
        && (left.kind matches ExprKind::Literal(Literal::Int(a)) && a == decimal_value(p.text_ahead(0)))
        && (right.kind matches ExprKind::Literal(Literal::Int(b)) && b == decimal_value(p.text_ahead(2))))
    &&& q.position() == p.position() + 3
    &&& q.id_counter() == p.id_counter() + 3
    &&& q.token_seq() == p.token_seq()
    &&& q.token_count() == p.token_count()
    &&& q.struct_literals_off() == p.struct_literals_off()
    &&& q.scopes() == p.scopes()
    &&& q.wf()
}

/// The parser stands on `a..b` of two integer literals, and the token after `b` does not
/// carry an operand of `..` on; three expression ids are left to give.
pub open spec fn at_int_range(p: Parser) -> bool {
    &&& int_ok(p, 0)
    &&& p.kind_ahead(1) == Some(Token::Range)
    &&& int_ok(p, 2)
    &&& !continues_at(p.kind_ahead(3), 6)
    &&& p.id_counter() + 2 < usize::MAX
}

/// From `p` to `q`, the range `a..b` at `p` was read as the expression `r`: three tokens and
/// three ids used.
pub open spec fn int_range_read(p: Parser, q: Parser, r: Result<Expr, String>) -> bool {
    &&& r matches Ok(e) && (e.kind matches ExprKind::Range { start, end }
        && int_literal_at(p.token_seq(), p.position(), *start) && int_literal_at(p.token_seq(), p.position() + 2, *end))
    &&& q.position() == p.position() + 3
    &&& q.id_counter() == p.id_counter() + 3
    &&& q.token_seq() == p.token_seq()
    &&& q.token_count() == p.token_count()
    &&& q.struct_literals_off() == p.struct_literals_off()
    &&& q.scopes() == p.scopes()
    &&& q.wf()
}

/// From `p` to `q`, `n` tokens were read and nothing else changed that later steps see.
pub open spec fn moved(p: Parser, q: Parser, n: int) -> bool {
    &&& q.position() == p.position() + n
    &&& q.id_counter() == p.id_counter()
    &&& q.token_seq() == p.token_seq()
    &&& q.token_count() == p.token_count()
    &&& q.struct_literals_off() == p.struct_literals_off()
    &&& q.scopes() == p.scopes()
    &&& q.wf()
}

/// The tokens that can begin a primary expression.
pub open spec fn primary_start(k: Option<Token>) -> bool {
    match k {
        Some(Token::Integer) | Some(Token::Float) | Some(Token::String) | Some(Token::Bytes)
        | Some(Token::Pipe) | Some(Token::True) | Some(Token::False) | Some(Token::SelfLower)
        | Some(Token::SelfType) | Some(Token::Unsafe) | Some(Token::Ident) | Some(Token::LParen)
        | Some(Token::LBracket) | Some(Token::LBrace) => true,
        _ => false,
    }
}

impl Parser {
    /// A parse step: reads on from `old`, and on success consumed input.
    pub open spec fn advanced(new: Parser, old: Parser, ok: bool) -> bool {
        &&& Parser::reads_on(new, old)
        &&& (ok ==> Parser::consumed(new, old))
    }

    /// The id of `e` was handed out during the step from `old` to `new`.
    pub open spec fn fresh(e: Expr, new: Parser, old: Parser) -> bool {
        old.id_counter() <= e.id < new.id_counter()
    }

    fn new_expr(&mut self, kind: ExprKind) -> (r: Result<Expr, String>)
        requires
            old(self).wf(),
        ensures
            r matches Ok(e) ==> e.id == old(self).id_counter() && e.kind == kind
                && final(self).id_counter() == old(self).id_counter() + 1,
            r is Ok <==> old(self).id_counter() < usize::MAX,
            r is Err ==> final(self).id_counter() == old(self).id_counter(),
            Parser::reads_on(*final(self), *old(self)),
            final(self).pos == old(self).pos,
            final(self).no_struct_literal == old(self).no_struct_literal,
    {
        let id = self.next_expr_id()?;
        Ok(Expr { id, kind })
    }

    // ===== expressions =====

    /// An expression: `lack &[T]`, an `if` / `lack if`, a `match`, or a range-level expression.
    fn parse_expr(&mut self) -> (r: Result<Expr, String>)
        requires
            old(self).wf(),
        ensures
            at_lone_int(*old(self)) ==> int_read(*old(self), *final(self), r),
            atom_then(*old(self), 7) ==> atom_read(*old(self), *final(self), r),
            at_int_pair(*old(self), 7) ==> int_pair_read(*old(self), *final(self), r),
            at_int_range(*old(self)) ==> int_range_read(*old(self), *final(self), r),
            Parser::advanced(*final(self), *old(self), r is Ok),
            r matches Ok(e) ==> Parser::fresh(e, *final(self), *old(self)),
        decreases old(self).tokens@.len() - old(self).pos, 20int,
    {
        if self.at(Token::Lack) {
            match self.peek_nth(1) {
                Some(Token::Amp) => return self.parse_lack_slice(),
                _ => return self.parse_if_expr(),
            }
        }
        if self.at(Token::If) {
            return self.parse_if_expr();
        }
        if self.at(Token::Match) {
            return self.parse_match_expr();
        }
        self.parse_range()
    }

    /// `lack &[T]`: an empty slice of element type `T`.
    fn parse_lack_slice(&mut self) -> (r: Result<Expr, String>)
        requires
            old(self).wf(),
        ensures
            old(self).kind_ahead(0) == Some(Token::Lack) && old(self).kind_ahead(1) == Some(Token::Amp)
                && old(self).kind_ahead(2) == Some(Token::LBracket)
                && (old(self).kind_ahead(3) matches Some(k) && primitive_type_of(k) is Some)
                && old(self).kind_ahead(4) == Some(Token::RBracket) && old(self).id_counter() < usize::MAX
                ==> (r matches Ok(e) && e.kind == ExprKind::LackSlice(primitive_type_of(old(self).kind_ahead(3)->0)->0)),
            Parser::advanced(*final(self), *old(self), r is Ok),
            r matches Ok(e) ==> Parser::fresh(e, *final(self), *old(self)) && e.kind is LackSlice,
        decreases old(self).tokens@.len() - old(self).pos, 15int,
    {
        self.expect(Token::Lack)?;
        self.expect(Token::Amp)?;
        self.expect(Token::LBracket)?;
        let ty = self.parse_type()?;
        self.expect(Token::RBracket)?;
        self.new_expr(ExprKind::LackSlice(ty))
    }

    /// `if c e [else e]` or `lack if c e`; struct literals are off in the condition.
    fn parse_if_expr(&mut self) -> (r: Result<Expr, String>)
        requires
            old(self).wf(),
        ensures
            old(self).kind_ahead(0) == Some(Token::If) && int_ok(*old(self), 1)
                && int_ok(*old(self), 2) && !continues_expr(old(self).kind_ahead(3))
                && old(self).kind_ahead(3) != Some(Token::Else) && old(self).id_counter() + 2 < usize::MAX
                ==> (r matches Ok(e) && (e.kind matches ExprKind::If { kind: IfKind::Normal, cond: c, then_expr: t, else_expr: None }
                    && (c.kind matches ExprKind::Literal(Literal::Int(a)) && a == decimal_value(old(self).text_ahead(1)))
                    && (t.kind matches ExprKind::Literal(Literal::Int(b)) && b == decimal_value(old(self).text_ahead(2)))))
                    && final(self).pos == old(self).pos + 3,
            old(self).kind_ahead(0) == Some(Token::If) && int_ok(*old(self), 1)
                && int_ok(*old(self), 2) && old(self).kind_ahead(3) == Some(Token::Else)
                && int_ok(*old(self), 4) && !continues_expr(old(self).kind_ahead(5))
                && old(self).id_counter() + 3 < usize::MAX
                ==> (r matches Ok(e) && (e.kind matches ExprKind::If { kind: IfKind::Normal, else_expr: Some(x), .. }
                    && (x.kind matches ExprKind::Literal(Literal::Int(v)) && v == decimal_value(old(self).text_ahead(4)))))
                    && final(self).pos == old(self).pos + 5,
            Parser::advanced(*final(self), *old(self), r is Ok),
            r matches Ok(e) ==> Parser::fresh(e, *final(self), *old(self)) && e.kind is If,
        decreases old(self).tokens@.len() - old(self).pos, 15int,
    {
        let if_kind = if self.at(Token::Lack) {
            self.next();
            IfKind::Lack
        } else {
            IfKind::Normal
        };
        self.expect(Token::If)?;
        let prev = self.no_struct_literal;
        self.no_struct_literal = true;
        let cond = Box::new(self.parse_expr()?);
        self.no_struct_literal = prev;
        let then_expr = Box::new(self.parse_expr()?);
        let else_expr = if self.at(Token::Else) {
            self.next();
            let e = self.parse_expr()?;
            Some(Box::new(e))
        } else {
            None
        };
        self.new_expr(ExprKind::If { kind: if_kind, cond, then_expr, else_expr })
    }

    /// `match c { pattern => e, ... }`.
    fn parse_match_expr(&mut self) -> (r: Result<Expr, String>)
        requires
            old(self).wf(),
        ensures
            old(self).kind_ahead(0) == Some(Token::Match) && int_ok(*old(self), 1)
                && old(self).kind_ahead(2) == Some(Token::LBrace) && old(self).kind_ahead(3) == Some(Token::RBrace)
                && old(self).id_counter() + 1 < usize::MAX
                ==> (r matches Ok(e) && (e.kind matches ExprKind::Match(m) && m.arms@.len() == 0)),
            Parser::advanced(*final(self), *old(self), r is Ok),
            r matches Ok(e) ==> Parser::fresh(e, *final(self), *old(self)) && e.kind is Match,
        decreases old(self).tokens@.len() - old(self).pos, 15int,
    {
        self.expect(Token::Match)?;
        let prev = self.no_struct_literal;
        self.no_struct_literal = true;
        let cond = Box::new(self.parse_expr()?);
        self.no_struct_literal = prev;
        self.expect(Token::LBrace)?;
        let ghost s1 = *self;
        let mut arms: Vec<MatchArm> = Vec::new();
        loop
            invariant
                self.wf(),
                Parser::consumed(*self, *old(self)),
                old(self).kind_ahead(0) == Some(Token::Match) && int_ok(*old(self), 1)
                    && old(self).kind_ahead(2) == Some(Token::LBrace) && old(self).kind_ahead(3) == Some(Token::RBrace)
                    && old(self).id_counter() + 1 < usize::MAX
                    ==> *self == s1 && arms@.len() == 0 && s1.position() == old(self).position() + 3
                        && s1.token_seq() == old(self).token_seq() && s1.token_count() == old(self).token_count()
                        && s1.id_counter() == old(self).id_counter() + 1,
            decreases self.tokens@.len() - self.pos,
        {
            match self.peek() {
                None => break,
                Some(Token::RBrace) => break,
                _ => {},
            }
            let pattern = self.parse_pattern()?;
            self.expect(Token::FatArrow)?;
            let expr = Box::new(self.parse_expr()?);
            if self.at(Token::Comma) {
                self.next();
            }
            arms.push(MatchArm { pattern, expr });
        }
        self.expect(Token::RBrace)?;
        self.new_expr(ExprKind::Match(MatchExpr { cond, arms }))
    }

    /// A match pattern: `_`, `Enum::Variant` or `Enum::Variant(binding)`.
    fn parse_pattern(&mut self) -> (r: Result<Pattern, String>)
        requires
            old(self).wf(),
        ensures
            Parser::reads_on(*final(self), *old(self)),
            final(self).no_struct_literal == old(self).no_struct_literal,
            final(self).expr_id_counter == old(self).expr_id_counter,
            ({
                let o = *old(self);
                if o.kind_ahead(0) == Some(Token::Ident) && o.text_ahead(0) == "_"@ {
                    r matches Ok(Pattern::Wildcard) && final(self).position() == o.position() + 1
                } else {
                    &&& (r is Ok <==> (o.kind_ahead(0) == Some(Token::Ident) && o.kind_ahead(1) == Some(Token::PathSep)
                        && o.kind_ahead(2) == Some(Token::Ident)
                        && (o.kind_ahead(3) == Some(Token::LParen) ==>
                            o.kind_ahead(4) == Some(Token::Ident) && o.kind_ahead(5) == Some(Token::RParen))))
                    &&& (r matches Ok(p) ==> o.kind_ahead(3) != Some(Token::LParen) && (p matches Pattern::EnumVariant { enum_name, variant_name }
                        && enum_name@ == o.text_ahead(0) && variant_name@ == o.text_ahead(2)
                        && final(self).position() == o.position() + 3)
                        || o.kind_ahead(3) == Some(Token::LParen) && (p matches Pattern::EnumVariantWithBinding { enum_name, variant_name, binding }
                        && enum_name@ == o.text_ahead(0) && variant_name@ == o.text_ahead(2) && binding@ == o.text_ahead(4)
                        && final(self).position() == o.position() + 6))
                }
            }),
            old(self).kind_ahead(0) == Some(Token::Ident) && old(self).text_ahead(0) != "_"@
                && old(self).kind_ahead(1) == Some(Token::Colon)
                ==> (r matches Err(m) && m@ == "Unexpected ':' in pattern, expected '::'"@),
            old(self).kind_ahead(0) == Some(Token::Ident) && old(self).text_ahead(0) != "_"@
                && old(self).kind_ahead(1) != Some(Token::Colon) && old(self).kind_ahead(1) != Some(Token::PathSep)
                ==> (r matches Err(m) && m@ == "expected '::' after enum name in pattern"@),
    {
        if self.at(Token::Ident) {
            let name = self.peek_text();
            if str_eq(name.as_str(), "_") {
                self.next();
                return Ok(Pattern::Wildcard);
            }
        }
        let name = self.parse_ident()?;
        let variant_name = match self.try_read_path_segment() {
            Some(result) => result?,
            None => {
                return if self.at(Token::Colon) {
                    Err("Unexpected ':' in pattern, expected '::'".to_string())
                } else {
                    Err("expected '::' after enum name in pattern".to_string())
                };
            },
        };
        if self.at(Token::LParen) {
            self.next();
            let binding = self.parse_ident()?;
            self.expect(Token::RParen)?;
            return Ok(Pattern::EnumVariantWithBinding { enum_name: name, variant_name, binding });
        }
        Ok(Pattern::EnumVariant { enum_name: name, variant_name })
    }

    /// `a .. b` or an or-level expression.
    fn parse_range(&mut self) -> (r: Result<Expr, String>)
        requires
            old(self).wf(),
        ensures
            at_lone_int(*old(self)) ==> int_read(*old(self), *final(self), r),
            atom_then(*old(self), 7) ==> atom_read(*old(self), *final(self), r),
            at_int_pair(*old(self), 7) ==> int_pair_read(*old(self), *final(self), r),
            at_int_range(*old(self)) ==> int_range_read(*old(self), *final(self), r),
            Parser::advanced(*final(self), *old(self), r is Ok),
            r matches Ok(e) ==> Parser::fresh(e, *final(self), *old(self)),
        decreases old(self).tokens@.len() - old(self).pos, 12int,
    {
        let left = self.parse_or()?;
        if self.at(Token::Range) {
            let ghost p1 = *self;
            self.next();
            let ghost p2 = *self;
            let right = self.parse_or()?;
            proof {
                if at_int_range(*old(self)) {
                    assert(p2.kind_ahead(0) == old(self).kind_ahead(2));
                    assert(p2.text_ahead(0) == old(self).text_ahead(2));
                    assert(p2.kind_ahead(1) == old(self).kind_ahead(3));
                    assert(atom_then(p2, 6));
                }
            }
            self.new_expr(ExprKind::Range { start: Box::new(left), end: Box::new(right) })
        } else {
            Ok(left)
        }
    }

    /// Left-associative `||`.
    fn parse_or(&mut self) -> (r: Result<Expr, String>)
        requires
            old(self).wf(),
        ensures
            atom_then(*old(self), 6) ==> atom_read(*old(self), *final(self), r),
            at_int_pair(*old(self), 6) ==> int_pair_read(*old(self), *final(self), r),
            Parser::advanced(*final(self), *old(self), r is Ok),
            r matches Ok(e) ==> Parser::fresh(e, *final(self), *old(self)),
        decreases old(self).tokens@.len() - old(self).pos, 11int,
    {
        let mut left = self.parse_and()?;
        let ghost p1 = *self;
        let ghost e1 = left;
        while self.at(Token::Or)
            invariant
                atom_then(*old(self), 6) ==> (*self == p1 && left == e1 && atom_read(*old(self), p1, Ok::<Expr, String>(e1))),
                at_int_pair(*old(self), 6) && pair_op(*old(self)).1 < 6
                    ==> (*self == p1 && left == e1 && int_pair_read(*old(self), p1, Ok::<Expr, String>(e1))),
                at_int_pair(*old(self), 6) && pair_op(*old(self)).1 == 6
                    ==> int_read(*old(self), p1, Ok::<Expr, String>(e1))
                        && ((*self == p1 && left == e1) || int_pair_read(*old(self), *self, Ok::<Expr, String>(left))),
                self.wf(),
                Parser::consumed(*self, *old(self)),
                Parser::fresh(left, *self, *old(self)),
            decreases self.tokens@.len() - self.pos,
        {
            self.next();
            let right = self.parse_and()?;
            left = self.new_expr(ExprKind::BinaryOp { op: BinaryOp::Or, left: Box::new(left), right: Box::new(right) })?;
        }
        Ok(left)
    }

    /// Left-associative `&&`.
    fn parse_and(&mut self) -> (r: Result<Expr, String>)
        requires
            old(self).wf(),
        ensures
            atom_then(*old(self), 5) ==> atom_read(*old(self), *final(self), r),
            at_int_pair(*old(self), 5) ==> int_pair_read(*old(self), *final(self), r),
            Parser::advanced(*final(self), *old(self), r is Ok),
            r matches Ok(e) ==> Parser::fresh(e, *final(self), *old(self)),
        decreases old(self).tokens@.len() - old(self).pos, 10int,
    {
        let mut left = self.parse_comparison()?;
        let ghost p1 = *self;
        let ghost e1 = left;
        while self.at(Token::And)
            invariant
                atom_then(*old(self), 5) ==> (*self == p1 && left == e1 && atom_read(*old(self), p1, Ok::<Expr, String>(e1))),
                at_int_pair(*old(self), 5) && pair_op(*old(self)).1 < 5
                    ==> (*self == p1 && left == e1 && int_pair_read(*old(self), p1, Ok::<Expr, String>(e1))),
                at_int_pair(*old(self), 5) && pair_op(*old(self)).1 == 5
                    ==> int_read(*old(self), p1, Ok::<Expr, String>(e1))
                        && ((*self == p1 && left == e1) || int_pair_read(*old(self), *self, Ok::<Expr, String>(left))),
                self.wf(),
                Parser::consumed(*self, *old(self)),
                Parser::fresh(left, *self, *old(self)),
            decreases self.tokens@.len() - self.pos,
        {
            self.next();
            let right = self.parse_comparison()?;
            left = self.new_expr(ExprKind::BinaryOp { op: BinaryOp::And, left: Box::new(left), right: Box::new(right) })?;
        }
        Ok(left)
    }

    /// Left-associative `== != < > <= >=`.
    fn parse_comparison(&mut self) -> (r: Result<Expr, String>)
        requires
            old(self).wf(),
        ensures
            atom_then(*old(self), 4) ==> atom_read(*old(self), *final(self), r),
            at_int_pair(*old(self), 4) ==> int_pair_read(*old(self), *final(self), r),
            Parser::advanced(*final(self), *old(self), r is Ok),
            r matches Ok(e) ==> Parser::fresh(e, *final(self), *old(self)),
        decreases old(self).tokens@.len() - old(self).pos, 9int,
    {
        let mut left = self.parse_add()?;
        let ghost p1 = *self;
        let ghost e1 = left;
        loop
            invariant
                atom_then(*old(self), 4) ==> (*self == p1 && left == e1 && atom_read(*old(self), p1, Ok::<Expr, String>(e1))),
                at_int_pair(*old(self), 4) && pair_op(*old(self)).1 < 4
                    ==> (*self == p1 && left == e1 && int_pair_read(*old(self), p1, Ok::<Expr, String>(e1))),
                at_int_pair(*old(self), 4) && pair_op(*old(self)).1 == 4
                    ==> int_read(*old(self), p1, Ok::<Expr, String>(e1))
                        && ((*self == p1 && left == e1) || int_pair_read(*old(self), *self, Ok::<Expr, String>(left))),
                self.wf(),
                Parser::consumed(*self, *old(self)),
                Parser::fresh(left, *self, *old(self)),
            ensures
                self.wf(),
                Parser::consumed(*self, *old(self)),
                Parser::fresh(left, *self, *old(self)),
                atom_then(*old(self), 4) ==> (*self == p1 && left == e1 && atom_read(*old(self), p1, Ok::<Expr, String>(e1))),
                at_int_pair(*old(self), 4) && pair_op(*old(self)).1 < 4
                    ==> (*self == p1 && left == e1 && int_pair_read(*old(self), p1, Ok::<Expr, String>(e1))),
                at_int_pair(*old(self), 4) && pair_op(*old(self)).1 == 4
                    ==> int_pair_read(*old(self), *self, Ok::<Expr, String>(left)),
            decreases self.tokens@.len() - self.pos,
        {
            let op = match self.peek() {
                Some(Token::EqEq) => BinaryOp::Eq,
                Some(Token::Neq) => BinaryOp::Neq,
                Some(Token::Lt) => BinaryOp::Lt,
                Some(Token::Gt) => BinaryOp::Gt,
                Some(Token::Le) => BinaryOp::Le,
                Some(Token::Ge) => BinaryOp::Ge,
                _ => break,
            };
            self.next();
            let right = self.parse_add()?;
            left = self.new_expr(ExprKind::BinaryOp { op, left: Box::new(left), right: Box::new(right) })?;
        }
        Ok(left)
    }

    /// Left-associative `+ -`.
    fn parse_add(&mut self) -> (r: Result<Expr, String>)
        requires
            old(self).wf(),
        ensures
            atom_then(*old(self), 3) ==> atom_read(*old(self), *final(self), r),
            at_int_pair(*old(self), 3) ==> int_pair_read(*old(self), *final(self), r),
            Parser::advanced(*final(self), *old(self), r is Ok),
            r matches Ok(e) ==> Parser::fresh(e, *final(self), *old(self)),
        decreases old(self).tokens@.len() - old(self).pos, 8int,
    {
        let mut left = self.parse_mul()?;
        let ghost p1 = *self;
        let ghost e1 = left;
        loop
            invariant
                atom_then(*old(self), 3) ==> (*self == p1 && left == e1 && atom_read(*old(self), p1, Ok::<Expr, String>(e1))),
                at_int_pair(*old(self), 3) && pair_op(*old(self)).1 < 3
                    ==> (*self == p1 && left == e1 && int_pair_read(*old(self), p1, Ok::<Expr, String>(e1))),
                at_int_pair(*old(self), 3) && pair_op(*old(self)).1 == 3
                    ==> int_read(*old(self), p1, Ok::<Expr, String>(e1))
                        && ((*self == p1 && left == e1) || int_pair_read(*old(self), *self, Ok::<Expr, String>(left))),
                self.wf(),
                Parser::consumed(*self, *old(self)),
                Parser::fresh(left, *self, *old(self)),
            ensures
                self.wf(),
                Parser::consumed(*self, *old(self)),
                Parser::fresh(left, *self, *old(self)),
                atom_then(*old(self), 3) ==> (*self == p1 && left == e1 && atom_read(*old(self), p1, Ok::<Expr, String>(e1))),
                at_int_pair(*old(self), 3) && pair_op(*old(self)).1 < 3
                    ==> (*self == p1 && left == e1 && int_pair_read(*old(self), p1, Ok::<Expr, String>(e1))),
                at_int_pair(*old(self), 3) && pair_op(*old(self)).1 == 3
                    ==> int_pair_read(*old(self), *self, Ok::<Expr, String>(left)),
            decreases self.tokens@.len() - self.pos,
        {
            let op = match self.peek() {
                Some(Token::Plus) => BinaryOp::Add,
                Some(Token::Minus) => BinaryOp::Sub,
                _ => break,
            };
            self.next();
            let right = self.parse_mul()?;
            left = self.new_expr(ExprKind::BinaryOp { op, left: Box::new(left), right: Box::new(right) })?;
        }
        Ok(left)
    }

    /// Left-associative `* / %`.
    fn parse_mul(&mut self) -> (r: Result<Expr, String>)
        requires
            old(self).wf(),
        ensures
            atom_then(*old(self), 2) ==> atom_read(*old(self), *final(self), r),
            at_int_pair(*old(self), 2) ==> int_pair_read(*old(self), *final(self), r),
            Parser::advanced(*final(self), *old(self), r is Ok),
            r matches Ok(e) ==> Parser::fresh(e, *final(self), *old(self)),
        decreases old(self).tokens@.len() - old(self).pos, 7int,
    {
        let mut left = self.parse_cast()?;
        let ghost p1 = *self;
        let ghost e1 = left;
        loop
            invariant
                atom_then(*old(self), 2) ==> (*self == p1 && left == e1 && atom_read(*old(self), p1, Ok::<Expr, String>(e1))),
                at_int_pair(*old(self), 2) && pair_op(*old(self)).1 < 2
                    ==> (*self == p1 && left == e1 && int_pair_read(*old(self), p1, Ok::<Expr, String>(e1))),
                at_int_pair(*old(self), 2) && pair_op(*old(self)).1 == 2
                    ==> int_read(*old(self), p1, Ok::<Expr, String>(e1))
                        && ((*self == p1 && left == e1) || int_pair_read(*old(self), *self, Ok::<Expr, String>(left))),
                self.wf(),
                Parser::consumed(*self, *old(self)),
                Parser::fresh(left, *self, *old(self)),
            ensures
                self.wf(),
                Parser::consumed(*self, *old(self)),
                Parser::fresh(left, *self, *old(self)),
                atom_then(*old(self), 2) ==> (*self == p1 && left == e1 && atom_read(*old(self), p1, Ok::<Expr, String>(e1))),
                at_int_pair(*old(self), 2) && pair_op(*old(self)).1 < 2
                    ==> (*self == p1 && left == e1 && int_pair_read(*old(self), p1, Ok::<Expr, String>(e1))),
                at_int_pair(*old(self), 2) && pair_op(*old(self)).1 == 2
                    ==> int_pair_read(*old(self), *self, Ok::<Expr, String>(left)),
            decreases self.tokens@.len() - self.pos,
        {
            let op = match self.peek() {
                Some(Token::Star) => BinaryOp::Mul,
                Some(Token::Slash) => BinaryOp::Div,
                Some(Token::Percent) => BinaryOp::Mod,
                _ => break,
            };
            self.next();
            let right = self.parse_cast()?;
            left = self.new_expr(ExprKind::BinaryOp { op, left: Box::new(left), right: Box::new(right) })?;
        }
        Ok(left)
    }

    /// `e as T`, repeated; binds looser than the unary operators.
    fn parse_cast(&mut self) -> (r: Result<Expr, String>)
        requires
            old(self).wf(),
        ensures
            atom_then(*old(self), 1) ==> atom_read(*old(self), *final(self), r),
            int_ok(*old(self), 0) && old(self).kind_ahead(1) == Some(Token::As)
                && (old(self).kind_ahead(2) matches Some(k) && primitive_type_of(k) is Some)
                && old(self).kind_ahead(3) != Some(Token::Lt) && old(self).kind_ahead(3) != Some(Token::As)
                && old(self).id_counter() + 1 < usize::MAX
                ==> (r matches Ok(e) && (e.kind matches ExprKind::Cast { expr: inner, ty }
                    && Some(ty) == primitive_type_of(old(self).kind_ahead(2)->0)
                    && (inner.kind matches ExprKind::Literal(Literal::Int(v)) && v == decimal_value(old(self).text_ahead(0)))))
                    && final(self).pos == old(self).pos + 3,
            Parser::advanced(*final(self), *old(self), r is Ok),
            r matches Ok(e) ==> Parser::fresh(e, *final(self), *old(self)),
        decreases old(self).tokens@.len() - old(self).pos, 6int,
    {
        let mut expr = self.parse_unary()?;
        let ghost p1 = *self;
        let ghost e1 = expr;
        while self.at(Token::As)
            invariant
                atom_then(*old(self), 1) ==> (*self == p1 && expr == e1 && atom_read(*old(self), p1, Ok::<Expr, String>(e1))),
                int_ok(*old(self), 0) && old(self).kind_ahead(1) == Some(Token::As)
                    && (old(self).kind_ahead(2) matches Some(k) && primitive_type_of(k) is Some)
                    && old(self).kind_ahead(3) != Some(Token::Lt) && old(self).kind_ahead(3) != Some(Token::As)
                    && old(self).id_counter() + 1 < usize::MAX
                    ==> int_read(*old(self), p1, Ok::<Expr, String>(e1)) && ((*self == p1 && expr == e1)
                        || ((expr.kind matches ExprKind::Cast { expr: inner, ty }
                            && Some(ty) == primitive_type_of(old(self).kind_ahead(2)->0) && *inner == e1)
                            && self.pos == old(self).pos + 3)),
                self.wf(),
                Parser::consumed(*self, *old(self)),
                Parser::fresh(expr, *self, *old(self)),
            decreases self.tokens@.len() - self.pos,
        {
            self.next();
            let ty = self.parse_type()?;
            expr = self.new_expr(ExprKind::Cast { expr: Box::new(expr), ty })?;
        }
        Ok(expr)
    }

    /// `!e`, `-e`, or a postfix expression.
    fn parse_unary(&mut self) -> (r: Result<Expr, String>)
        requires
            old(self).wf(),
        ensures
            atom_then(*old(self), 0) ==> atom_read(*old(self), *final(self), r),
            Parser::advanced(*final(self), *old(self), r is Ok),
            r matches Ok(e) ==> Parser::fresh(e, *final(self), *old(self)),
            r matches Ok(e) ==> (old(self).kind_ahead(0) == Some(Token::Bang) ==> e.kind matches ExprKind::Unary { op: UnaryOp::Not, .. })
                && (old(self).kind_ahead(0) == Some(Token::Minus) ==> e.kind matches ExprKind::Unary { op: UnaryOp::Neg, .. }),
            old(self).kind_ahead(0) != Some(Token::Bang) && old(self).kind_ahead(0) != Some(Token::Minus)
                && !primary_start(old(self).kind_ahead(0)) ==> r is Err,
            (old(self).kind_ahead(0) == Some(Token::Bang) || old(self).kind_ahead(0) == Some(Token::Minus))
                && int_ok(*old(self), 1) && old(self).kind_ahead(2) != Some(Token::LBracket)
                && old(self).id_counter() + 1 < usize::MAX
                ==> (r matches Ok(e) && (e.kind matches ExprKind::Unary { expr: inner, .. }
                    && (inner.kind matches ExprKind::Literal(Literal::Int(v)) && v == decimal_value(old(self).text_ahead(1)))))
                    && final(self).pos == old(self).pos + 2,
        decreases old(self).tokens@.len() - old(self).pos, 5int,
    {
        let op = match self.peek() {
            Some(Token::Bang) => UnaryOp::Not,
            Some(Token::Minus) => UnaryOp::Neg,
            _ => return self.parse_postfix(),
        };
        self.next();
        let expr = self.parse_unary()?;
        self.new_expr(ExprKind::Unary { op, expr: Box::new(expr) })
    }

    /// A primary expression followed by any number of `[index]`.
    fn parse_postfix(&mut self) -> (r: Result<Expr, String>)
        requires
            old(self).wf(),
        ensures
            atom_then(*old(self), 0) ==> atom_read(*old(self), *final(self), r),
            Parser::advanced(*final(self), *old(self), r is Ok),
            r matches Ok(e) ==> Parser::fresh(e, *final(self), *old(self)),
            !primary_start(old(self).kind_ahead(0)) ==> r is Err,
            int_ok(*old(self), 0) && old(self).kind_ahead(1) == Some(Token::LBracket)
                && int_ok(*old(self), 2) && old(self).kind_ahead(3) == Some(Token::RBracket)
                && old(self).kind_ahead(4) != Some(Token::LBracket) && old(self).id_counter() + 2 < usize::MAX
                ==> (r matches Ok(e) && (e.kind matches ExprKind::Index { expr: a, index: b }
                    && (a.kind matches ExprKind::Literal(Literal::Int(v)) && v == decimal_value(old(self).text_ahead(0)))
                    && (b.kind matches ExprKind::Literal(Literal::Int(w)) && w == decimal_value(old(self).text_ahead(2)))))
                    && final(self).pos == old(self).pos + 4,
        decreases old(self).tokens@.len() - old(self).pos, 4int,
    {
        let mut expr = self.parse_primary()?;
        let ghost p1 = *self;
        let ghost e1 = expr;
        while self.at(Token::LBracket)
            invariant
                atom_then(*old(self), 0) ==> (*self == p1 && expr == e1 && atom_read(*old(self), p1, Ok::<Expr, String>(e1))),
                int_ok(*old(self), 0) && old(self).kind_ahead(1) == Some(Token::LBracket)
                    && int_ok(*old(self), 2) && old(self).kind_ahead(3) == Some(Token::RBracket)
                    && old(self).kind_ahead(4) != Some(Token::LBracket) && old(self).id_counter() + 2 < usize::MAX
                    ==> int_read(*old(self), p1, Ok::<Expr, String>(e1)) && ((*self == p1 && expr == e1)
                        || ((expr.kind matches ExprKind::Index { expr: a, index: b } && *a == e1
                            && (b.kind matches ExprKind::Literal(Literal::Int(w)) && w == decimal_value(old(self).text_ahead(2))))
                            && self.pos == old(self).pos + 4)),
                self.wf(),
                Parser::consumed(*self, *old(self)),
                Parser::fresh(expr, *self, *old(self)),
            decreases self.tokens@.len() - self.pos,
        {
            self.next();
            let index = self.parse_expr()?;
            self.expect(Token::RBracket)?;
            expr = self.new_expr(ExprKind::Index { expr: Box::new(expr), index: Box::new(index) })?;
        }
        Ok(expr)
    }
}

} // verus!

verus! {

/// `first` followed by `rest`.
fn prepend_arg(first: CallArg, rest: Vec<CallArg>) -> (r: Vec<CallArg>)
    ensures
        r@ == seq![first] + rest@,
{
    let mut out: Vec<CallArg> = Vec::new();
    out.push(first);
    let mut rest = rest;
    out.append(&mut rest);
    out
}

/// A string literal's text without its enclosing quotes (unchanged if it has none).
pub open spec fn unquoted(text: Seq<char>) -> Seq<char> {
    if text.len() >= 2 && text[0] == '"' && text[text.len() - 1] == '"' {
        text.subrange(1, text.len() - 1)
    } else {
        text
    }
}

/// The contents of a string literal token: its text without the enclosing quotes.
fn string_literal_contents(value: String) -> (r: String)
    ensures
        r@ == unquoted(value@),
{
    let chars = chars_of(value.as_str());
    let n = chars.len();
    if n >= 2 && chars[0] == '"' && chars[n - 1] == '"' {
        string_from_range(&chars, 1, n - 1)
    } else {
        value
    }
}

/// `{:?}` of an optional token with its text: `Some((Kind, "text"))` or `None`.
fn token_debug(t: &Option<(Token, String)>) -> (r: String)
    ensures
        r@ == match *t {
            Some((k, v)) => "Some(("@ + token_name_text(k) + ", "@ + string_debug_text(v@) + "))"@,
            None => "None"@,
        },
{
    match t {
        Some((k, v)) => {
            let mut m = String::new();
            push_str(&mut m, "Some((");
            push_str(&mut m, token_name(*k));
            push_str(&mut m, ", ");
            let d = string_debug(v);
            push_str(&mut m, d.as_str());
            push_str(&mut m, "))");
            m
        },
        None => "None".to_string(),
    }
}

impl Parser {
    /// Trailing `.field` and `.method(args)` applied to `expr`, in order.
    fn parse_dot_chain(&mut self, expr: Expr) -> (r: Result<Expr, String>)
        requires
            old(self).wf(),
        ensures
            old(self).kind_ahead(0) != Some(Token::Dot) ==> r == Ok::<Expr, String>(expr) && *final(self) == *old(self),
            Parser::reads_on(*final(self), *old(self)),
            r is Ok ==> final(self).no_struct_literal == old(self).no_struct_literal,
            r matches Ok(e) ==> e.id == expr.id || Parser::fresh(e, *final(self), *old(self)),
        decreases old(self).tokens@.len() - old(self).pos, 2int,
    {
        let ghost orig = expr;
        let mut expr = expr;
        let ghost first = expr.id;
        while self.at(Token::Dot)
            invariant
                old(self).kind_ahead(0) != Some(Token::Dot) ==> *self == *old(self) && expr == orig,
                self.wf(),
                Parser::reads_on(*self, *old(self)),
                self.no_struct_literal == old(self).no_struct_literal,
                expr.id == first || Parser::fresh(expr, *self, *old(self)),
            decreases self.tokens@.len() - self.pos,
        {
            self.next();
            let field_name = self.parse_ident()?;
            if self.at(Token::LParen) {
                let args = self.parse_call_args()?;
                let all_args = prepend_arg(CallArg::Positional(expr), args);
                expr = self.new_expr(ExprKind::Call { qualifier: None, func: field_name, args: all_args, is_method: true })?;
            } else {
                expr = self.new_expr(ExprKind::FieldAccess { struct_expr: Box::new(expr), field_name })?;
            }
        }
        Ok(expr)
    }

    /// A parenthesized argument list: `(e, name: e, ...)`; `name: e` is a named argument where
    /// `name` is an identifier or `in`.
    fn parse_call_args(&mut self) -> (r: Result<Vec<CallArg>, String>)
        requires
            old(self).wf(),
        ensures
            old(self).kind_ahead(0) == Some(Token::LParen) && old(self).kind_ahead(1) == Some(Token::RParen)
                ==> (r matches Ok(v) && v@.len() == 0) && moved(*old(self), *final(self), 2),
            old(self).kind_ahead(0) == Some(Token::LParen) && int_ok(*old(self), 1)
                && old(self).kind_ahead(2) == Some(Token::RParen) && old(self).id_counter() < usize::MAX
                ==> (r matches Ok(v) && v@.len() == 1 && (v@[0] matches CallArg::Positional(e)
                    && (e.kind matches ExprKind::Literal(Literal::Int(x)) && x == decimal_value(old(self).text_ahead(1)))))
                    && final(self).pos == old(self).pos + 3 && final(self).id_counter() == old(self).id_counter() + 1,
            old(self).kind_ahead(0) == Some(Token::LParen) && old(self).kind_ahead(1) == Some(Token::Ident)
                && old(self).kind_ahead(2) == Some(Token::Colon) && int_ok(*old(self), 3)
                && old(self).kind_ahead(4) == Some(Token::RParen) && old(self).id_counter() < usize::MAX
                ==> (r matches Ok(v) && v@.len() == 1 && (v@[0] matches CallArg::Named(n, e) && n@ == old(self).text_ahead(1)
                    && (e.kind matches ExprKind::Literal(Literal::Int(x)) && x == decimal_value(old(self).text_ahead(3)))))
                    && final(self).pos == old(self).pos + 5,
            Parser::advanced(*final(self), *old(self), r is Ok),
        decreases old(self).tokens@.len() - old(self).pos, 2int,
    {
        self.expect(Token::LParen)?;
        let ghost s1 = *self;
        let mut args: Vec<CallArg> = Vec::new();
        loop
            invariant
                self.wf(),
                Parser::consumed(*self, *old(self)),
                old(self).kind_ahead(0) == Some(Token::LParen) && old(self).kind_ahead(1) == Some(Token::RParen)
                    ==> *self == s1 && args@.len() == 0 && moved(*old(self), s1, 1),
                old(self).kind_ahead(0) == Some(Token::LParen) && int_ok(*old(self), 1)
                    && old(self).kind_ahead(2) == Some(Token::RParen) && old(self).id_counter() < usize::MAX
                    ==> moved(*old(self), s1, 1) && ((*self == s1 && args@.len() == 0) || (args@.len() == 1
                        && (args@[0] matches CallArg::Positional(e) && int_read(s1, *self, Ok::<Expr, String>(e))))),
                old(self).kind_ahead(0) == Some(Token::LParen) && old(self).kind_ahead(1) == Some(Token::Ident)
                    && old(self).kind_ahead(2) == Some(Token::Colon) && int_ok(*old(self), 3)
                    && old(self).kind_ahead(4) == Some(Token::RParen) && old(self).id_counter() < usize::MAX
                    ==> moved(*old(self), s1, 1) && ((*self == s1 && args@.len() == 0) || (args@.len() == 1
                        && (args@[0] matches CallArg::Named(n, e) && n@ == old(self).text_ahead(1)
                            && (e.kind matches ExprKind::Literal(Literal::Int(x)) && x == decimal_value(old(self).text_ahead(3))))
                        && self.pos == old(self).pos + 4 && self.token_seq() == old(self).token_seq()
                        && self.token_count() == old(self).token_count())),
            ensures
                self.wf(),
                Parser::consumed(*self, *old(self)),
                old(self).kind_ahead(0) == Some(Token::LParen) && old(self).kind_ahead(1) == Some(Token::RParen)
                    ==> *self == s1 && args@.len() == 0 && moved(*old(self), s1, 1),
                old(self).kind_ahead(0) == Some(Token::LParen) && int_ok(*old(self), 1)
                    && old(self).kind_ahead(2) == Some(Token::RParen) && old(self).id_counter() < usize::MAX
                    ==> moved(*old(self), s1, 1) && args@.len() == 1
                        && (args@[0] matches CallArg::Positional(e) && int_read(s1, *self, Ok::<Expr, String>(e))),
                old(self).kind_ahead(0) == Some(Token::LParen) && old(self).kind_ahead(1) == Some(Token::Ident)
                    && old(self).kind_ahead(2) == Some(Token::Colon) && int_ok(*old(self), 3)
                    && old(self).kind_ahead(4) == Some(Token::RParen) && old(self).id_counter() < usize::MAX
                    ==> args@.len() == 1 && (args@[0] matches CallArg::Named(n, e) && n@ == old(self).text_ahead(1)
                            && (e.kind matches ExprKind::Literal(Literal::Int(x)) && x == decimal_value(old(self).text_ahead(3))))
                        && self.pos == old(self).pos + 4 && self.token_seq() == old(self).token_seq()
                        && self.token_count() == old(self).token_count(),
            decreases self.tokens@.len() - self.pos,
        {
            match self.peek() {
                None => break,
                Some(Token::RParen) => break,
                _ => {},
            }
            let is_ident_like = self.at(Token::Ident) || self.at(Token::In);
            let named = is_ident_like && match self.peek_nth(1) {
                Some(Token::Colon) => true,
                _ => false,
            };
            if named {
                let name = match self.next() {
                    Some((_, s)) => s,
                    None => return Err("Expected parameter name".to_string()),
                };
                self.next();
                let expr = self.parse_expr()?;
                args.push(CallArg::Named(name, expr));
            } else {
                let expr = self.parse_expr()?;
                args.push(CallArg::Positional(expr));
            }
            if self.at(Token::Comma) {
                self.next();
            } else {
                break;
            }
        }
        self.expect(Token::RParen)?;
        Ok(args)
    }

    /// The fields of a struct literal after `{`, through the closing `}`; `name` alone is
    /// short for `name: name`.
    fn parse_struct_fields(&mut self) -> (r: Result<Vec<(String, Expr)>, String>)
        requires
            old(self).wf(),
        ensures
            old(self).kind_ahead(0) == Some(Token::RBrace) ==> (r matches Ok(v) && v@.len() == 0) && moved(*old(self), *final(self), 1),
            old(self).kind_ahead(0) == Some(Token::Ident) && old(self).kind_ahead(1) == Some(Token::Colon)
                && int_ok(*old(self), 2) && old(self).kind_ahead(3) == Some(Token::RBrace)
                && old(self).id_counter() < usize::MAX
                ==> (r matches Ok(fs) && fs@.len() == 1 && fs@[0].0@ == old(self).text_ahead(0)
                    && (fs@[0].1.kind matches ExprKind::Literal(Literal::Int(v)) && v == decimal_value(old(self).text_ahead(2))))
                    && final(self).pos == old(self).pos + 4,
            old(self).kind_ahead(0) == Some(Token::Ident) && old(self).kind_ahead(1) == Some(Token::RBrace)
                && old(self).id_counter() < usize::MAX
                ==> (r matches Ok(fs) && fs@.len() == 1 && fs@[0].0@ == old(self).text_ahead(0)
                    && (fs@[0].1.kind matches ExprKind::Ident(x) && x@ == old(self).text_ahead(0)))
                    && final(self).pos == old(self).pos + 2,
            Parser::advanced(*final(self), *old(self), r is Ok),
        decreases old(self).tokens@.len() - old(self).pos, 2int,
    {
        let mut fields: Vec<(String, Expr)> = Vec::new();
        let ghost start = self.pos;
        loop
            invariant
                old(self).kind_ahead(0) == Some(Token::RBrace) ==> *self == *old(self) && fields@.len() == 0,
                self.wf(),
                Parser::reads_on(*self, *old(self)),
                self.no_struct_literal == old(self).no_struct_literal,
                old(self).kind_ahead(0) == Some(Token::Ident) && old(self).kind_ahead(1) == Some(Token::Colon)
                    && int_ok(*old(self), 2) && old(self).kind_ahead(3) == Some(Token::RBrace)
                    && old(self).id_counter() < usize::MAX
                    ==> (*self == *old(self) && fields@.len() == 0) || (fields@.len() == 1 && fields@[0].0@ == old(self).text_ahead(0)
                        && (fields@[0].1.kind matches ExprKind::Literal(Literal::Int(v)) && v == decimal_value(old(self).text_ahead(2)))
                        && self.pos == old(self).pos + 3 && self.token_seq() == old(self).token_seq()
                        && self.token_count() == old(self).token_count()),
                old(self).kind_ahead(0) == Some(Token::Ident) && old(self).kind_ahead(1) == Some(Token::RBrace)
                    && old(self).id_counter() < usize::MAX
                    ==> (*self == *old(self) && fields@.len() == 0) || (fields@.len() == 1 && fields@[0].0@ == old(self).text_ahead(0)
                        && (fields@[0].1.kind matches ExprKind::Ident(x) && x@ == old(self).text_ahead(0))
                        && self.pos == old(self).pos + 1 && self.token_seq() == old(self).token_seq()
                        && self.token_count() == old(self).token_count()),
            ensures
                old(self).kind_ahead(0) == Some(Token::RBrace) ==> *self == *old(self) && fields@.len() == 0,
                self.wf(),
                Parser::reads_on(*self, *old(self)),
                self.no_struct_literal == old(self).no_struct_literal,
                old(self).kind_ahead(0) == Some(Token::Ident) && old(self).kind_ahead(1) == Some(Token::Colon)
                    && int_ok(*old(self), 2) && old(self).kind_ahead(3) == Some(Token::RBrace)
                    && old(self).id_counter() < usize::MAX
                    ==> (fields@.len() == 1 && fields@[0].0@ == old(self).text_ahead(0)
                        && (fields@[0].1.kind matches ExprKind::Literal(Literal::Int(v)) && v == decimal_value(old(self).text_ahead(2)))
                        && self.pos == old(self).pos + 3 && self.token_seq() == old(self).token_seq()
                        && self.token_count() == old(self).token_count()),
                old(self).kind_ahead(0) == Some(Token::Ident) && old(self).kind_ahead(1) == Some(Token::RBrace)
                    && old(self).id_counter() < usize::MAX
                    ==> (fields@.len() == 1 && fields@[0].0@ == old(self).text_ahead(0)
                        && (fields@[0].1.kind matches ExprKind::Ident(x) && x@ == old(self).text_ahead(0))
                        && self.pos == old(self).pos + 1 && self.token_seq() == old(self).token_seq()
                        && self.token_count() == old(self).token_count()),
            decreases self.tokens@.len() - self.pos,
        {
            match self.peek() {
                None => break,
                Some(Token::RBrace) => break,
                _ => {},
            }
            let field_name = self.parse_ident()?;
            let is_shorthand = match self.peek() {
                Some(Token::Comma) => true,
                Some(Token::RBrace) => true,
                _ => false,
            };
            if is_shorthand {
                let expr = self.new_expr(ExprKind::Ident(field_name.clone()))?;
                fields.push((field_name, expr));
                if self.at(Token::Comma) {
                    self.next();
                }
                continue;
            }
            self.expect(Token::Colon)?;
            let expr = self.parse_expr()?;
            fields.push((field_name, expr));
            if self.at(Token::Comma) {
                self.next();
            }
        }
        self.expect(Token::RBrace)?;
        Ok(fields)
    }

    /// `|param| body`.
    fn parse_closure(&mut self) -> (r: Result<Expr, String>)
        requires
            old(self).wf(),
        ensures
            old(self).kind_ahead(0) == Some(Token::Pipe) && old(self).kind_ahead(1) == Some(Token::Ident)
                && old(self).kind_ahead(2) == Some(Token::Pipe) && int_ok(*old(self), 3)
                && !continues_expr(old(self).kind_ahead(4)) && old(self).id_counter() + 1 < usize::MAX
                ==> (r matches Ok(e) && (e.kind matches ExprKind::Closure { param, .. } && param@ == old(self).text_ahead(1))),
            Parser::advanced(*final(self), *old(self), r is Ok),
            r matches Ok(e) ==> Parser::fresh(e, *final(self), *old(self)),
        decreases old(self).tokens@.len() - old(self).pos, 2int,
    {
        self.expect(Token::Pipe)?;
        let param = self.parse_ident()?;
        self.expect(Token::Pipe)?;
        let body = Box::new(self.parse_expr()?);
        self.new_expr(ExprKind::Closure { param, body })
    }

    /// `{ stmt* }`.
    fn parse_block(&mut self) -> (r: Result<Block, String>)
        requires
            old(self).wf(),
        ensures
            old(self).kind_ahead(0) == Some(Token::LBrace) && old(self).kind_ahead(1) == Some(Token::RBrace)
                ==> (r matches Ok(b) && b.stmts@.len() == 0) && moved(*old(self), *final(self), 2),
            old(self).kind_ahead(0) == Some(Token::LBrace) && old(self).id_counter() + (old(self).token_count() - old(self).position()) < usize::MAX
                ==> (simple_stmts(old(self).token_seq(), old(self).position() + 1) matches Some((c, e))
                ==> (r matches Ok(b) && b.stmts@.len() == c && stmts_at(old(self).token_seq(), old(self).position() + 1, b.stmts@))
                    && final(self).position() == e + 1
                    && final(self).id_counter() <= old(self).id_counter() + (final(self).position() - old(self).position())),
            Parser::advanced(*final(self), *old(self), r is Ok),
        decreases old(self).tokens@.len() - old(self).pos, 1int,
    {
        self.expect(Token::LBrace)?;
        let ghost s1 = *self;
        let ghost toks = old(self).token_seq();
        let ghost first = old(self).position() + 1;
        let mut stmts: Vec<Stmt> = Vec::new();
        assert forall|rest: Seq<Stmt>| #[trigger] stmts_at(toks, first, stmts@ + rest) == stmts_at(toks, first, rest) by {
            assert(stmts@ + rest =~= rest);
        }
        loop
            invariant
                self.wf(),
                Parser::consumed(*self, *old(self)),
                old(self).kind_ahead(0) == Some(Token::LBrace) && old(self).kind_ahead(1) == Some(Token::RBrace)
                    ==> *self == s1 && stmts@.len() == 0 && moved(*old(self), s1, 1),
                toks == old(self).token_seq(),
                old(self).kind_ahead(0) == Some(Token::LBrace) && old(self).id_counter() + (old(self).token_count() - old(self).position()) < usize::MAX
                    ==> (simple_stmts(toks, old(self).position() + 1) matches Some((c, e))
                    ==> (simple_stmts(toks, self.position()) matches Some((c2, e2)) && e2 == e && c2 + stmts@.len() == c)
                        && self.id_counter() <= old(self).id_counter() + (self.position() - old(self).position())
                        && forall|rest: Seq<Stmt>| #[trigger] stmts_at(toks, first, stmts@ + rest) == stmts_at(toks, self.position(), rest)),
                first == old(self).position() + 1,
            ensures
                self.wf(),
                Parser::consumed(*self, *old(self)),
                old(self).kind_ahead(0) == Some(Token::LBrace) && old(self).kind_ahead(1) == Some(Token::RBrace)
                    ==> *self == s1 && stmts@.len() == 0 && moved(*old(self), s1, 1),
                old(self).kind_ahead(0) == Some(Token::LBrace) && old(self).id_counter() + (old(self).token_count() - old(self).position()) < usize::MAX
                    ==> (simple_stmts(toks, old(self).position() + 1) matches Some((c, e))
                    ==> self.position() == e && self.kind_ahead(0) == Some(Token::RBrace) && stmts@.len() == c
                        && self.id_counter() <= old(self).id_counter() + (self.position() - old(self).position())
                        && stmts_at(toks, first, stmts@)),
            decreases self.tokens@.len() - self.pos,
        {
            proof {
                if old(self).kind_ahead(0) == Some(Token::LBrace) && old(self).id_counter() + (old(self).token_count() - old(self).position()) < usize::MAX
                    && simple_stmts(toks, first) is Some {
                    assert(stmts@ + Seq::<Stmt>::empty() =~= stmts@);
                    assert(stmts_at(toks, first, stmts@ + Seq::<Stmt>::empty()) == stmts_at(toks, self.position(), Seq::<Stmt>::empty()));
                }
            }
            match self.peek() {
                None => break,
                Some(Token::RBrace) => break,
                _ => {},
            }
            let ghost cur = self.position();
            let ghost before = stmts@;
            let stmt = self.parse_stmt()?;
            let ghost st = stmt;
            stmts.push(stmt);
            proof {
                if old(self).kind_ahead(0) == Some(Token::LBrace) && old(self).id_counter() + (old(self).token_count() - old(self).position()) < usize::MAX
                    && simple_stmts(toks, first) is Some {
                    lemma_stmts_at_step(toks, first, before, st, cur);
                }
            }
        }
        self.expect(Token::RBrace)?;
        Ok(Block { stmts })
    }

    /// `unsafe { ... }` or `unsafe verify { ... }`.
    fn parse_unsafe_block(&mut self) -> (r: Result<UnsafeBlockStmt, String>)
        requires
            old(self).wf(),
        ensures
            old(self).kind_ahead(0) == Some(Token::Unsafe) && old(self).kind_ahead(1) == Some(Token::LBrace)
                && old(self).kind_ahead(2) == Some(Token::RBrace) ==> (r matches Ok(u) && u.kind == UnsafeKind::Normal && u.body.stmts@.len() == 0),
            Parser::advanced(*final(self), *old(self), r is Ok),
        decreases old(self).tokens@.len() - old(self).pos, 1int,
    {
        self.expect(Token::Unsafe)?;
        let kind = if self.at(Token::Verify) {
            self.next();
            UnsafeKind::Verify
        } else {
            UnsafeKind::Normal
        };
        let body = self.parse_block()?;
        Ok(UnsafeBlockStmt { kind, body })
    }

    /// A primary expression: a literal, a closure (possibly called at once), `self` / `Self`
    /// with trailing field and method accesses, an unsafe block, a name (with `Sym<N>`, enum
    /// variants, calls, struct literals and trailing accesses), a parenthesized expression or
    /// `()`, an array literal, or a block.
    #[verifier::rlimit(60)]
    fn parse_primary(&mut self) -> (r: Result<Expr, String>)
        requires
            old(self).wf(),
        ensures
            Parser::advanced(*final(self), *old(self), r is Ok),
            r matches Ok(e) ==> Parser::fresh(e, *final(self), *old(self)),
            !primary_start(old(self).kind_ahead(0)) ==> r is Err,
            int_ok(*old(self), 0) && old(self).id_counter() < usize::MAX
                ==> int_read(*old(self), *final(self), r),
            old(self).kind_ahead(0) == Some(Token::Integer) && !int_text_ok(old(self).text_ahead(0)) ==> r is Err,
            ident_alone(*old(self)) && old(self).id_counter() < usize::MAX ==> ident_read(*old(self), *final(self), r),
            old(self).kind_ahead(0) == Some(Token::Ident) && old(self).kind_ahead(1) == Some(Token::LParen)
                && old(self).kind_ahead(2) == Some(Token::RParen) && old(self).id_counter() < usize::MAX
                ==> (r matches Ok(e) && (e.kind matches ExprKind::Call { qualifier: None, func, args, is_method: false }
                    && func@ == old(self).text_ahead(0) && args@.len() == 0)) && final(self).pos == old(self).pos + 3,
            old(self).kind_ahead(0) == Some(Token::Ident) && old(self).kind_ahead(1) == Some(Token::LParen)
                && int_ok(*old(self), 2) && old(self).kind_ahead(3) == Some(Token::RParen) && old(self).id_counter() + 1 < usize::MAX
                ==> (r matches Ok(e) && (e.kind matches ExprKind::Call { qualifier: None, func, args, is_method: false }
                    && func@ == old(self).text_ahead(0) && args@.len() == 1 && (args@[0] matches CallArg::Positional(a)
                    && int_literal_at(old(self).token_seq(), old(self).position() + 2, a))))
                    && final(self).pos == old(self).pos + 4,
            old(self).kind_ahead(0) == Some(Token::Bytes) ==> (r is Ok <==> (old(self).kind_ahead(1) == Some(Token::String)
                && decode_bytes_from(unquoted(old(self).text_ahead(1)), 0) is Some && old(self).id_counter() < usize::MAX)),
            old(self).kind_ahead(0) == Some(Token::Bytes) && r is Ok ==> final(self).pos == old(self).pos + 2,
            old(self).kind_ahead(0) == Some(Token::Bytes) && old(self).kind_ahead(1) == Some(Token::String)
                && decode_bytes_from(unquoted(old(self).text_ahead(1)), 0) is None
                ==> (r matches Err(m) && m@ == decode_error(unquoted(old(self).text_ahead(1)), 0)),
            r matches Ok(e) ==> match old(self).kind_ahead(0) {
                Some(Token::Integer) => e.kind matches ExprKind::Literal(Literal::Int(v))
                    && v == decimal_value(old(self).text_ahead(0)),
                Some(Token::Float) => e.kind matches ExprKind::Literal(Literal::Float(t))
                    && t@ == old(self).text_ahead(0),
                Some(Token::String) => e.kind matches ExprKind::Literal(Literal::String(t))
                    && t@ == unquoted(old(self).text_ahead(0)),
                Some(Token::Bytes) => old(self).kind_ahead(1) == Some(Token::String)
                    && (e.kind matches ExprKind::Literal(Literal::ByteString(b))
                        && decode_bytes_from(unquoted(old(self).text_ahead(1)), 0) == Some(b@)),
                Some(Token::True) => e.kind == ExprKind::Literal(Literal::Bool(true)),
                Some(Token::False) => e.kind == ExprKind::Literal(Literal::Bool(false)),
                Some(Token::Unsafe) => e.kind is UnsafeBlock,
                Some(Token::LBracket) => e.kind is ArrayLiteral,
                Some(Token::LBrace) => e.kind is Block,
                Some(Token::LParen) => old(self).kind_ahead(1) == Some(Token::RParen)
                    ==> e.kind == ExprKind::Literal(Literal::Unit),
                Some(Token::Ident) => {
                    let name = old(self).text_ahead(0);
                    let next = old(self).kind_ahead(1);
                    &&& (name == "Sym"@ && next == Some(Token::Lt) ==> e.kind is Sym)
                    &&& (next == Some(Token::PathSep) ==> ((e.kind matches ExprKind::EnumVariantAccess { enum_name, .. }
                        && enum_name@ == name) || (e.kind matches ExprKind::EnumVariantConstruction { enum_name, .. }
                        && enum_name@ == name)))
                    &&& (next == Some(Token::LParen) ==> (e.kind matches ExprKind::Call { qualifier: None, func, is_method: false, .. }
                        && func@ == name))
                },
                _ => true,
            },
        decreases old(self).tokens@.len() - old(self).pos, 3int,
    {
        match self.peek() {
            Some(Token::Integer) => {
                let k = self.pos;
                let v = match self.integer_value(k) {
                    Some(n) => n,
                    None => return Err("Integer literal out of range".to_string()),
                };
                self.next();
                self.new_expr(ExprKind::Literal(Literal::Int(v as i64)))
            },
            Some(Token::Float) => {
                let text = self.peek_text();
                self.next();
                self.new_expr(ExprKind::Literal(Literal::Float(text)))
            },
            Some(Token::String) => {
                let value = self.peek_text();
                self.next();
                let inner = string_literal_contents(value);
                self.new_expr(ExprKind::Literal(Literal::String(inner)))
            },
            Some(Token::Bytes) => {
                self.next();
                let got = self.next();
                let value = match got {
                    Some((Token::String, v)) => v,
                    other => {
                        let mut m = String::new();
                        push_str(&mut m, "Expected string literal immediately after 'bytes', got ");
                        let d = token_debug(&other);
                        push_str(&mut m, d.as_str());
                        return Err(m);
                    },
                };
                let inner = string_literal_contents(value);
                let bytes = Self::decode_byte_string(inner.as_str())?;
                self.new_expr(ExprKind::Literal(Literal::ByteString(bytes)))
            },
            Some(Token::Pipe) => {
                let closure = self.parse_closure()?;
                if self.at(Token::LParen) {
                    let args = self.parse_call_args()?;
                    let all_args = prepend_arg(CallArg::Positional(closure), args);
                    self.new_expr(ExprKind::Call {
                        qualifier: None,
                        func: "closure_call".to_string(),
                        args: all_args,
                        is_method: false,
                    })
                } else {
                    Ok(closure)
                }
            },
            Some(Token::True) => {
                self.next();
                self.new_expr(ExprKind::Literal(Literal::Bool(true)))
            },
            Some(Token::False) => {
                self.next();
                self.new_expr(ExprKind::Literal(Literal::Bool(false)))
            },
            Some(Token::SelfLower) => {
                self.next();
                let expr = self.new_expr(ExprKind::Ident("self".to_string()))?;
                self.parse_dot_chain(expr)
            },
            Some(Token::SelfType) => {
                self.next();
                let expr = if self.at(Token::LBrace) {
                    self.next();
                    let fields = self.parse_struct_fields()?;
                    self.new_expr(ExprKind::StructInit { struct_name: "Self".to_string(), fields })?
                } else {
                    self.new_expr(ExprKind::Ident("Self".to_string()))?
                };
                self.parse_dot_chain(expr)
            },
            Some(Token::Unsafe) => {
                let unsafe_stmt = self.parse_unsafe_block()?;
                self.new_expr(ExprKind::UnsafeBlock(unsafe_stmt))
            },
            Some(Token::Ident) => {
                let name = self.peek_text();
                self.next();
                if str_eq(name.as_str(), "Sym") && self.at(Token::Lt) {
                    self.next();
                    let sym_name = self.parse_ident()?;
                    self.expect(Token::Gt)?;
                    return self.new_expr(ExprKind::Sym(sym_name));
                }
                if self.at(Token::PathSep) {
                    self.next();
                    let variant_name = self.parse_ident()?;
                    if self.at(Token::LParen) {
                        let args = self.parse_call_args()?;
                        return self.new_expr(ExprKind::EnumVariantConstruction { enum_name: name, variant_name, args });
                    }
                    return self.new_expr(ExprKind::EnumVariantAccess { enum_name: name, variant_name });
                }
                if self.at(Token::LParen) {
                    proof {
                        assert(self.kind_ahead(1) == old(self).kind_ahead(2));
                        assert(self.kind_ahead(2) == old(self).kind_ahead(3));
                        assert(self.text_ahead(1) == old(self).text_ahead(2));
                        assert(old(self).text_ahead(2) == text_at(old(self).token_seq(), old(self).position() + 2));
                    }
                    let args = self.parse_call_args()?;
                    return self.new_expr(ExprKind::Call { qualifier: None, func: name, args, is_method: false });
                }
                if !self.no_struct_literal && self.at(Token::LBrace) {
                    self.next();
                    let fields = self.parse_struct_fields()?;
                    let expr = self.new_expr(ExprKind::StructInit { struct_name: name, fields })?;
                    return self.parse_dot_chain(expr);
                }
                let expr = self.new_expr(ExprKind::Ident(name))?;
                self.parse_dot_chain(expr)
            },
            Some(Token::LParen) => {
                self.next();
                if self.at(Token::RParen) {
                    self.next();
                    return self.new_expr(ExprKind::Literal(Literal::Unit));
                }
                let expr = self.parse_expr()?;
                self.expect(Token::RParen)?;
                Ok(expr)
            },
            Some(Token::LBracket) => {
                self.next();
                let mut elements: Vec<Expr> = Vec::new();
                loop
                    invariant
                        self.wf(),
                        Parser::consumed(*self, *old(self)),
                        old(self).kind_ahead(0) == Some(Token::LBracket),
                    decreases self.tokens@.len() - self.pos,
                {
                    match self.peek() {
                        None => break,
                        Some(Token::RBracket) => break,
                        _ => {},
                    }
                    let expr = self.parse_expr()?;
                    elements.push(expr);
                    if self.at(Token::Comma) {
                        self.next();
                    } else {
                        break;
                    }
                }
                self.expect(Token::RBracket)?;
                self.new_expr(ExprKind::ArrayLiteral(elements))
            },
            Some(Token::LBrace) => {
                let block = self.parse_block()?;
                self.new_expr(ExprKind::Block(block))
            },
            _ => Err("Expected expression".to_string()),
        }
    }
}

} // verus!

verus! {

impl Parser {
    // ===== statements =====

    /// A statement: `persist let/var`, `let`, `var`, `break`, `return`, `while`, `for`, `loop`,
    /// an `if`/`lack`/`unsafe` expression statement, an assignment `target op= e;` (op one of
    /// `= += -= *= /= %=`; a compound one assigns `target op e`), or an expression statement.
    #[verifier::rlimit(40)]
    fn parse_stmt(&mut self) -> (r: Result<Stmt, String>)
        requires
            old(self).wf(),
        ensures
            old(self).kind_ahead(0) == Some(Token::Break) && old(self).kind_ahead(1) == Some(Token::Semicolon) ==> r is Ok,
            old(self).kind_ahead(0) == Some(Token::Return) && old(self).kind_ahead(1) == Some(Token::Semicolon)
                ==> r matches Ok(Stmt::Return(None)),
            (old(self).kind_ahead(0) == Some(Token::Let) || old(self).kind_ahead(0) == Some(Token::Var))
                && old(self).kind_ahead(1) == Some(Token::Ident) && old(self).kind_ahead(2) == Some(Token::Eq)
                && int_ok(*old(self), 3) && old(self).kind_ahead(4) == Some(Token::Semicolon)
                && old(self).id_counter() < usize::MAX
                ==> (r matches Ok(Stmt::Let(l)) && l.name@ == old(self).text_ahead(1) && l.ty is None
                    && (l.init.kind matches ExprKind::Literal(Literal::Int(v)) && v == decimal_value(old(self).text_ahead(3))))
                    && final(self).pos == old(self).pos + 5,
            int_ok(*old(self), 0) && old(self).kind_ahead(1) == Some(Token::Semicolon)
                && old(self).id_counter() < usize::MAX
                ==> (r matches Ok(Stmt::ExprStmt(e)) && (e.kind matches ExprKind::Literal(Literal::Int(v))
                    && v == decimal_value(old(self).text_ahead(0)))) && final(self).pos == old(self).pos + 2,
            old(self).kind_ahead(0) == Some(Token::Ident) && old(self).kind_ahead(1) == Some(Token::Eq)
                && int_ok(*old(self), 2) && old(self).kind_ahead(3) == Some(Token::Semicolon)
                && old(self).id_counter() + 1 < usize::MAX
                ==> (r matches Ok(Stmt::Assign(a)) && (a.target.kind matches ExprKind::Ident(n) && n@ == old(self).text_ahead(0))
                    && (a.expr.kind matches ExprKind::Literal(Literal::Int(v)) && v == decimal_value(old(self).text_ahead(2)))
                    && a.target.id == old(self).id_counter() && a.expr.id == old(self).id_counter() + 1)
                    && final(self).pos == old(self).pos + 4,
            old(self).kind_ahead(0) == Some(Token::Ident) && (old(self).kind_ahead(1) matches Some(t) && compound_of(t) is Some)
                && int_ok(*old(self), 2) && old(self).kind_ahead(3) == Some(Token::Semicolon)
                && old(self).id_counter() + 2 < usize::MAX
                ==> (r matches Ok(Stmt::Assign(a)) && (a.target.kind matches ExprKind::Ident(n) && n@ == old(self).text_ahead(0))
                    && (a.expr.kind matches ExprKind::BinaryOp { op, left, right }
                        && Some(op) == compound_of(old(self).kind_ahead(1)->0) && left.id == a.target.id
                        && (left.kind matches ExprKind::Ident(n) && n@ == old(self).text_ahead(0))
                        && (right.kind matches ExprKind::Literal(Literal::Int(v)) && v == decimal_value(old(self).text_ahead(2)))
                        && right.id == old(self).id_counter() + 1)
                    && a.target.id == old(self).id_counter() && a.expr.id == old(self).id_counter() + 2)
                    && final(self).pos == old(self).pos + 4,
            simple_stmt_len(old(self).token_seq(), old(self).position()) > 0
                && old(self).id_counter() + simple_stmt_len(old(self).token_seq(), old(self).position()) < usize::MAX
                ==> (r matches Ok(st) && stmt_at(old(self).token_seq(), old(self).position(), st))
                    && final(self).position() == old(self).position() + simple_stmt_len(old(self).token_seq(), old(self).position())
                    && final(self).id_counter() <= old(self).id_counter() + simple_stmt_len(old(self).token_seq(), old(self).position()),
            old(self).while_simple_ahead() ==> (simple_stmts(old(self).token_seq(), old(self).position() + 3) matches Some((c, e))
                ==> (r matches Ok(Stmt::While(w)) && int_literal_at(old(self).token_seq(), old(self).position() + 1, *w.cond)
                    && stmts_at(old(self).token_seq(), old(self).position() + 3, w.body.stmts@))
                    && final(self).position() == e + 1),
            old(self).for_range_ahead() ==> (simple_stmts(old(self).token_seq(), old(self).position() + 7) matches Some((c, e))
                ==> (r matches Ok(Stmt::For(f)) && f.var@ == old(self).text_ahead(1)
                    && (f.iterable.kind matches ExprKind::Range { start, end }
                        && int_literal_at(old(self).token_seq(), old(self).position() + 3, *start)
                        && int_literal_at(old(self).token_seq(), old(self).position() + 5, *end))
                    && f.body.stmts@.len() == c && stmts_at(old(self).token_seq(), old(self).position() + 7, f.body.stmts@))
                    && final(self).position() == e + 1),
            Parser::advanced(*final(self), *old(self), r is Ok),
            old(self).kind_ahead(0) == Some(Token::Persist) && old(self).kind_ahead(1) != Some(Token::Let)
                && old(self).kind_ahead(1) != Some(Token::Var) ==> r is Err,
            r matches Ok(s) ==> match old(self).kind_ahead(0) {
                Some(Token::Persist) => s matches Stmt::Let(l) && l.persist
                    && l.mutable == (old(self).kind_ahead(1) == Some(Token::Var)),
                Some(Token::Let) => s matches Stmt::Let(l) && !l.mutable && !l.persist,
                Some(Token::Var) => s matches Stmt::Let(l) && l.mutable && !l.persist,
                Some(Token::Break) => s is Break,
                Some(Token::Return) => s is Return,
                Some(Token::While) => s is While,
                Some(Token::For) => s is For,
                Some(Token::Loop) => s is Loop,
                Some(Token::If) | Some(Token::Lack) | Some(Token::Unsafe) => s is ExprStmt,
                _ => s is Assign || s is ExprStmt,
            },
        decreases old(self).tokens@.len() - old(self).pos, 30int,
    {
        match self.peek() {
            Some(Token::Persist) => {
                self.next();
                return match self.peek() {
                    Some(Token::Let) => {
                        self.next();
                        self.parse_binding(false, true)
                    },
                    Some(Token::Var) => {
                        self.next();
                        self.parse_binding(true, true)
                    },
                    _ => Err("Expected 'let' or 'var' after 'persist'".to_string()),
                };
            },
            Some(Token::Let) => {
                self.next();
                return self.parse_binding(false, false);
            },
            Some(Token::Var) => {
                self.next();
                return self.parse_binding(true, false);
            },
            Some(Token::Break) => return self.parse_break_stmt(),
            Some(Token::Return) => return self.parse_return_stmt(),
            Some(Token::While) => return self.parse_while_stmt(),
            Some(Token::For) => return self.parse_for_stmt(),
            Some(Token::Loop) => return self.parse_loop_stmt(),
            Some(Token::If) | Some(Token::Lack) | Some(Token::Unsafe) => {
                let expr = self.parse_expr()?;
                if self.at(Token::Semicolon) {
                    self.next();
                }
                return Ok(Stmt::ExprStmt(expr));
            },
            _ => {},
        }
        let target = self.parse_expr()?;
        let compound_op = match self.peek() {
            Some(Token::PlusEq) => Some(BinaryOp::Add),
            Some(Token::MinusEq) => Some(BinaryOp::Sub),
            Some(Token::StarEq) => Some(BinaryOp::Mul),
            Some(Token::SlashEq) => Some(BinaryOp::Div),
            Some(Token::PercentEq) => Some(BinaryOp::Mod),
            _ => None,
        };
        let is_assign = self.at(Token::Eq) || compound_op.is_some();
        if is_assign {
            self.next();
            let rhs = self.parse_expr()?;
            self.expect(Token::Semicolon)?;
            let expr = match compound_op {
                None => rhs,
                Some(op) => self.new_expr(ExprKind::BinaryOp {
                    op,
                    left: Box::new(copy_expr(&target)),
                    right: Box::new(rhs),
                })?,
            };
            return Ok(Stmt::Assign(AssignStmt { target: Box::new(target), expr: Box::new(expr) }));
        }
        if self.at(Token::Semicolon) {
            self.next();
        }
        Ok(Stmt::ExprStmt(target))
    }

    /// The rest of `let`/`var`: `name [: T] = e;`.
    fn parse_binding(&mut self, mutable: bool, persist: bool) -> (r: Result<Stmt, String>)
        requires
            old(self).wf(),
        ensures
            old(self).kind_ahead(0) == Some(Token::Ident) && old(self).kind_ahead(1) == Some(Token::Eq)
                && int_ok(*old(self), 2) && old(self).kind_ahead(3) == Some(Token::Semicolon)
                && old(self).id_counter() < usize::MAX
                ==> (r matches Ok(Stmt::Let(l)) && l.name@ == old(self).text_ahead(0) && l.ty is None
                    && (l.init.kind matches ExprKind::Literal(Literal::Int(v)) && v == decimal_value(old(self).text_ahead(2))))
                    && final(self).pos == old(self).pos + 4 && final(self).id_counter() == old(self).id_counter() + 1,
            old(self).kind_ahead(0) == Some(Token::Ident) && old(self).kind_ahead(1) == Some(Token::Colon)
                && (old(self).kind_ahead(2) matches Some(k) && primitive_type_of(k) is Some)
                && old(self).kind_ahead(3) == Some(Token::Eq) && int_ok(*old(self), 4)
                && old(self).kind_ahead(5) == Some(Token::Semicolon) && old(self).id_counter() < usize::MAX
                ==> (r matches Ok(Stmt::Let(l)) && l.name@ == old(self).text_ahead(0)
                    && l.ty == primitive_type_of(old(self).kind_ahead(2)->0)
                    && (l.init.kind matches ExprKind::Literal(Literal::Int(v)) && v == decimal_value(old(self).text_ahead(4))))
                    && final(self).pos == old(self).pos + 6 && final(self).id_counter() == old(self).id_counter() + 1,
            Parser::advanced(*final(self), *old(self), r is Ok),
            r matches Ok(s) ==> s matches Stmt::Let(l) && l.mutable == mutable && l.persist == persist,
        decreases old(self).tokens@.len() - old(self).pos, 25int,
    {
        let name = self.parse_ident()?;
        let ty = if self.at(Token::Colon) {
            self.next();
            Some(self.parse_type()?)
        } else {
            None
        };
        self.expect(Token::Eq)?;
        let init = self.parse_expr()?;
        self.expect(Token::Semicolon)?;
        Ok(Stmt::Let(LetStmt { name, ty, init: Box::new(init), mutable, persist }))
    }

    /// `break;`
    fn parse_break_stmt(&mut self) -> (r: Result<Stmt, String>)
        requires
            old(self).wf(),
        ensures
            Parser::advanced(*final(self), *old(self), r is Ok),
            r is Ok <==> old(self).kind_ahead(0) == Some(Token::Break) && old(self).kind_ahead(1) == Some(Token::Semicolon),
            r matches Ok(s) ==> s is Break,
        decreases old(self).tokens@.len() - old(self).pos, 25int,
    {
        self.expect(Token::Break)?;
        self.expect(Token::Semicolon)?;
        Ok(Stmt::Break(BreakStmt {}))
    }

    /// `loop { ... }`
    fn parse_loop_stmt(&mut self) -> (r: Result<Stmt, String>)
        requires
            old(self).wf(),
        ensures
            old(self).kind_ahead(0) == Some(Token::Loop) && old(self).kind_ahead(1) == Some(Token::LBrace)
                && old(self).kind_ahead(2) == Some(Token::RBrace) ==> (r matches Ok(Stmt::Loop(l)) && l.body.stmts@.len() == 0),
            Parser::advanced(*final(self), *old(self), r is Ok),
            r matches Ok(s) ==> s is Loop,
        decreases old(self).tokens@.len() - old(self).pos, 25int,
    {
        self.expect(Token::Loop)?;
        let body = self.parse_block()?;
        Ok(Stmt::Loop(LoopStmt { body }))
    }

    /// `for x in e { ... }`; struct literals are off in `e`.
    fn parse_for_stmt(&mut self) -> (r: Result<Stmt, String>)
        requires
            old(self).wf(),
        ensures
            old(self).kind_ahead(0) == Some(Token::For) && old(self).kind_ahead(1) == Some(Token::Ident)
                && old(self).kind_ahead(2) == Some(Token::In) && int_ok(*old(self), 3)
                && old(self).kind_ahead(4) == Some(Token::LBrace) && old(self).kind_ahead(5) == Some(Token::RBrace)
                && old(self).id_counter() < usize::MAX
                ==> (r matches Ok(Stmt::For(f)) && f.var@ == old(self).text_ahead(1) && f.body.stmts@.len() == 0),
            old(self).for_range_ahead() ==> (simple_stmts(old(self).token_seq(), old(self).position() + 7) matches Some((c, e))
                ==> (r matches Ok(Stmt::For(f)) && f.var@ == old(self).text_ahead(1)
                    && (f.iterable.kind matches ExprKind::Range { start, end }
                        && int_literal_at(old(self).token_seq(), old(self).position() + 3, *start)
                        && int_literal_at(old(self).token_seq(), old(self).position() + 5, *end))
                    && f.body.stmts@.len() == c && stmts_at(old(self).token_seq(), old(self).position() + 7, f.body.stmts@))
                    && final(self).position() == e + 1),
            Parser::advanced(*final(self), *old(self), r is Ok),
            r matches Ok(s) ==> s is For,
        decreases old(self).tokens@.len() - old(self).pos, 25int,
    {
        self.expect(Token::For)?;
        let var = self.parse_ident()?;
        self.expect(Token::In)?;
        let prev = self.no_struct_literal;
        self.no_struct_literal = true;
        let iterable = Box::new(self.parse_expr()?);
        self.no_struct_literal = prev;
        let body = self.parse_block()?;
        Ok(Stmt::For(ForStmt { var, iterable, body }))
    }

    /// `return;` or `return e;`
    fn parse_return_stmt(&mut self) -> (r: Result<Stmt, String>)
        requires
            old(self).wf(),
        ensures
            old(self).kind_ahead(0) == Some(Token::Return) && old(self).kind_ahead(1) == Some(Token::Semicolon)
                ==> r matches Ok(Stmt::Return(None)),
            Parser::advanced(*final(self), *old(self), r is Ok),
            r matches Ok(s) ==> s is Return,
        decreases old(self).tokens@.len() - old(self).pos, 25int,
    {
        self.expect(Token::Return)?;
        if self.at(Token::Semicolon) {
            self.next();
            Ok(Stmt::Return(None))
        } else {
            let expr = self.parse_expr()?;
            self.expect(Token::Semicolon)?;
            Ok(Stmt::Return(Some(expr)))
        }
    }

    /// `while c { ... }`; struct literals are off in `c`.
    fn parse_while_stmt(&mut self) -> (r: Result<Stmt, String>)
        requires
            old(self).wf(),
        ensures
            old(self).kind_ahead(0) == Some(Token::While) && int_ok(*old(self), 1)
                && old(self).kind_ahead(2) == Some(Token::LBrace) && old(self).kind_ahead(3) == Some(Token::RBrace)
                && old(self).id_counter() < usize::MAX ==> (r matches Ok(Stmt::While(w)) && w.body.stmts@.len() == 0),
            old(self).while_simple_ahead() ==> (simple_stmts(old(self).token_seq(), old(self).position() + 3) matches Some((c, e))
                ==> (r matches Ok(Stmt::While(w)) && int_literal_at(old(self).token_seq(), old(self).position() + 1, *w.cond)
                    && stmts_at(old(self).token_seq(), old(self).position() + 3, w.body.stmts@))
                    && final(self).position() == e + 1),
            Parser::advanced(*final(self), *old(self), r is Ok),
            r matches Ok(s) ==> s is While,
        decreases old(self).tokens@.len() - old(self).pos, 25int,
    {
        self.expect(Token::While)?;
        let prev = self.no_struct_literal;
        self.no_struct_literal = true;
        let cond = self.parse_expr()?;
        self.no_struct_literal = prev;
        let body = self.parse_block()?;
        Ok(Stmt::While(WhileStmt { cond: Box::new(cond), body }))
    }

    /// An expression with an optional `;`.
    fn parse_expr_stmt(&mut self) -> (r: Result<Stmt, String>)
        requires
            old(self).wf(),
        ensures
            at_lone_int(*old(self)) ==> (r matches Ok(Stmt::ExprStmt(e))
                && (e.kind matches ExprKind::Literal(Literal::Int(v)) && v == decimal_value(old(self).text_ahead(0)))),
            Parser::advanced(*final(self), *old(self), r is Ok),
            r matches Ok(s) ==> s is ExprStmt,
        decreases old(self).tokens@.len() - old(self).pos, 25int,
    {
        let expr = self.parse_expr()?;
        if self.at(Token::Semicolon) {
            self.next();
        }
        Ok(Stmt::ExprStmt(expr))
    }
}

} // verus!

verus! {

/// The parser stands on `fn name() {}`.
pub open spec fn at_empty_fn(p: Parser) -> bool {
    &&& p.kind_ahead(0) == Some(Token::Fn)
    &&& p.kind_ahead(1) == Some(Token::Ident)
    &&& p.kind_ahead(2) == Some(Token::LParen)
    &&& p.kind_ahead(3) == Some(Token::RParen)
    &&& p.kind_ahead(4) == Some(Token::LBrace)
    &&& p.kind_ahead(5) == Some(Token::RBrace)
}

/// The path before a braced `use` list, from token `i`: `a::b::...::` up to the `{`.
/// Gives the segments and the index of the `{`.
pub open spec fn use_prefix(toks: Seq<(Token, Seq<char>)>, i: int) -> Option<(Seq<Seq<char>>, int)>
    decreases toks.len() - i,
{
    if 0 <= i && kind_at(toks, i) == Some(Token::Ident) && kind_at(toks, i + 1) == Some(Token::PathSep) {
        if kind_at(toks, i + 2) == Some(Token::LBrace) {
            Some((seq![text_at(toks, i)], i + 2))
        } else {
            match use_prefix(toks, i + 2) {
                Some((segs, b)) => Some((seq![text_at(toks, i)] + segs, b)),
                None => None,
            }
        }
    } else {
        None
    }
}

/// The entry of a braced `use` list at token `i` (a name, with an alias after `as` where one
/// is written) and the index after it.
pub open spec fn use_entry_at(toks: Seq<(Token, Seq<char>)>, i: int) -> ((Seq<char>, Option<Seq<char>>), int) {
    if kind_at(toks, i + 1) == Some(Token::As) && kind_at(toks, i + 2) == Some(Token::Ident) {
        ((text_at(toks, i), Some(text_at(toks, i + 2))), i + 3)
    } else {
        ((text_at(toks, i), None), i + 1)
    }
}

/// The entries of a braced `use` list from token `i` up to its `}`: the entries and the index
/// of the `}`.
pub open spec fn use_entries(toks: Seq<(Token, Seq<char>)>, i: int) -> Option<(Seq<(Seq<char>, Option<Seq<char>>)>, int)>
    decreases toks.len() - i,
{
    if i < 0 || kind_at(toks, i) != Some(Token::Ident) {
        None
    } else {
        let (entry, j) = use_entry_at(toks, i);
        if kind_at(toks, j) == Some(Token::RBrace) {
            Some((seq![entry], j))
        } else if kind_at(toks, j) == Some(Token::Comma) {
            match use_entries(toks, j + 1) {
                Some((rest, e)) => Some((seq![entry] + rest, e)),
                None => None,
            }
        } else {
            None
        }
    }
}

proof fn lemma_use_entries_end(toks: Seq<(Token, Seq<char>)>, i: int)
    requires
        use_entries(toks, i) is Some,
    ensures
        kind_at(toks, use_entries(toks, i)->Some_0.1) == Some(Token::RBrace),
    decreases toks.len() - i,
{
    let j = use_entry_at(toks, i).1;
    if kind_at(toks, j) == Some(Token::Comma) {
        lemma_use_entries_end(toks, j + 1);
    }
}

/// The `use` item reads the entry `(name, alias)` under the path `base`.
pub open spec fn use_item_is(it: Item, base: Seq<char>, entry: (Seq<char>, Option<Seq<char>>)) -> bool {
    it matches Item::Use(u) && u.path@ == base + "::"@ + entry.0 && match entry.1 {
        Some(a) => u.alias matches Some(x) && x@ == a,
        None => u.alias is None,
    }
}

/// A braced `use` list from token `i`: `a::...::{X [as Y], ...};`, giving the path, the entries
/// and the index after the `;`.
pub open spec fn use_list_at(toks: Seq<(Token, Seq<char>)>, i: int) -> Option<(Seq<Seq<char>>, Seq<(Seq<char>, Option<Seq<char>>)>, int)> {
    match use_prefix(toks, i) {
        Some((segs, b)) => match use_entries(toks, b + 1) {
            Some((es, e)) => if kind_at(toks, e + 1) == Some(Token::Semicolon) { Some((segs, es, e + 2)) } else { None },
            None => None,
        },
        None => None,
    }
}

/// The parts joined by `::`.
pub open spec fn join_path(parts: Seq<Seq<char>>) -> Seq<char>
    decreases parts.len(),
{
    if parts.len() == 0 {
        Seq::empty()
    } else if parts.len() == 1 {
        parts[0]
    } else {
        join_path(parts.drop_last()) + "::"@ + parts.last()
    }
}


/// `parts` joined by `::`.
fn join_parts(parts: &Vec<String>) -> (r: String)
    ensures
        r@ == join_path(string_views(parts@)),
{
    let mut out = String::new();
    let mut k: usize = 0;
    while k < parts.len()
        invariant
            k <= parts@.len(),
            out@ == join_path(string_views(parts@.take(k as int))),
        decreases parts.len() - k,
    {
        assert(string_views(parts@.take(k as int + 1)).drop_last() == string_views(parts@.take(k as int)));
        if k > 0 {
            push_str(&mut out, "::");
        } else {
            assert(out@ == Seq::<char>::empty());
        }
        push_str(&mut out, parts[k].as_str());
        k += 1;
    }
    assert(parts@.take(parts@.len() as int) == parts@);
    out
}

impl Parser {
    // ===== items =====

    /// A whole program: items up to the end of the input.
    pub fn parse_program(&mut self) -> (r: Result<Program, String>)
        requires
            old(self).wf(),
        ensures
            Parser::reads_on(*final(self), *old(self)),
            r is Ok ==> final(self).position() == final(self).token_count(),
            old(self).position() == old(self).token_count() ==> (r matches Ok(p) && p.items@.len() == 0),
            at_empty_fn(*old(self)) && old(self).token_count() == old(self).position() + 6
                ==> (r matches Ok(p) && p.items@.len() == 1 && (p.items@[0] matches Item::FnDef(f)
                    && f.name@ == old(self).text_ahead(1) && f.params@.len() == 0 && f.body.stmts@.len() == 0)),
            old(self).id_counter() + (old(self).token_count() - old(self).position()) < usize::MAX
                ==> (simple_program(old(self).token_seq(), old(self).position()) matches Some(fs)
                ==> (r matches Ok(p) && p.items@.len() == fs.len() && forall|k: int| 0 <= k < fs.len()
                    ==> (#[trigger] p.items@[k] matches Item::FnDef(f) && fn_described(f, fs[k])
                        && fn_body_at(old(self).token_seq(), simple_fn_starts(old(self).token_seq(), old(self).position())[k], f)))),
    {
        let mut items: Vec<Item> = Vec::new();
        let ghost mut starts: Seq<int> = Seq::empty();
        while self.peek().is_some()
            invariant
                self.wf(),
                Parser::reads_on(*self, *old(self)),
                old(self).position() == old(self).token_count()
                    ==> items@.len() == 0 && self.position() == self.token_count(),
                at_empty_fn(*old(self)) && old(self).token_count() == old(self).position() + 6
                    ==> (*self == *old(self) && items@.len() == 0) || (self.position() == self.token_count()
                        && items@.len() == 1 && (items@[0] matches Item::FnDef(f)
                        && f.name@ == old(self).text_ahead(1) && f.params@.len() == 0 && f.body.stmts@.len() == 0)),
                old(self).id_counter() + (old(self).token_count() - old(self).position()) < usize::MAX
                    ==> (simple_program(old(self).token_seq(), old(self).position()) matches Some(fs)
                    ==> (simple_program(self.token_seq(), self.position()) matches Some(rest)
                        && fs == program_prefix(items@) + rest
                        && self.id_counter() <= old(self).id_counter() + (self.position() - old(self).position())
                        && simple_fn_starts(self.token_seq(), old(self).position()) == starts + simple_fn_starts(self.token_seq(), self.position())
                        && starts.len() == items@.len()
                        && forall|k: int| 0 <= k < items@.len()
                            ==> (#[trigger] items@[k] matches Item::FnDef(f) && fn_described(f, fs[k])
                                && fn_body_at(self.token_seq(), starts[k], f)))),
            decreases self.tokens@.len() - self.pos,
        {
            let ghost here = self.position();
            let mut more = self.parse_item()?;
            items.append(&mut more);
            proof {
                starts = starts.push(here);
            }
        }
        Ok(Program { items })
    }

    /// One top-level item, after its attributes and an optional `pub`/`priv`: `mod name;`
    /// (no item), a function, a model, an implement block, an interface, a `use` (one item per
    /// imported name), a struct, an enum or a constant. Attributes are refused on `mod`,
    /// `use`, struct, enum and constant.
    fn parse_item(&mut self) -> (r: Result<Vec<Item>, String>)
        requires
            old(self).wf(),
        ensures
            Parser::advanced(*final(self), *old(self), r is Ok),
            !item_start(old(self).kind_ahead(0)) ==> r is Err,
            r matches Ok(items) ==> match old(self).kind_ahead(0) {
                Some(Token::Fn) => items@.len() == 1
                    && (items@[0] matches Item::FnDef(f) && f.name@ == old(self).text_ahead(1)),
                Some(Token::Model) => items@.len() == 1
                    && (items@[0] matches Item::ModelDef(m) && m.name@ == old(self).text_ahead(1)),
                Some(Token::Implement) => items@.len() == 1 && items@[0] is Implement,
                Some(Token::Interface) => items@.len() == 1 && items@[0] is Interface,
                Some(Token::Struct) => items@.len() == 1
                    && (items@[0] matches Item::StructDef(x) && x.name@ == old(self).text_ahead(1)),
                Some(Token::Enum) => items@.len() == 1
                    && (items@[0] matches Item::EnumDef(x) && x.name@ == old(self).text_ahead(1)),
                Some(Token::Const) => items@.len() == 1
                    && (items@[0] matches Item::ConstDef(c) && c.name@ == old(self).text_ahead(1)),
                Some(Token::Use) => forall|k: int| 0 <= k < items@.len() ==> #[trigger] items@[k] is Use,
                Some(Token::Mod) => items@.len() == 0,
                _ => true,
            },
            old(self).kind_ahead(0) == Some(Token::Fn) && old(self).id_counter() + (old(self).token_count() - old(self).position()) < usize::MAX
                ==> (simple_fn_at(old(self).token_seq(), old(self).position()) matches Some((n, t, c, e))
                ==> (r matches Ok(items) && items@.len() == 1 && (items@[0] matches Item::FnDef(f) && fn_described(f, (n, t, c))
                    && fn_body_at(old(self).token_seq(), old(self).position(), f)))
                    && final(self).position() == e
                    && final(self).id_counter() <= old(self).id_counter() + (final(self).position() - old(self).position())),
            at_empty_fn(*old(self)) ==> (r matches Ok(items) && items@.len() == 1 && (items@[0] matches Item::FnDef(f)
                && f.params@.len() == 0 && f.body.stmts@.len() == 0)) && final(self).pos == old(self).pos + 6,
            old(self).kind_ahead(0) == Some(Token::Struct) && old(self).kind_ahead(1) == Some(Token::Ident)
                && old(self).kind_ahead(2) == Some(Token::LBrace) && old(self).kind_ahead(3) == Some(Token::RBrace)
                ==> r is Ok && final(self).pos == old(self).pos + 4,
    {
        let attrs = self.parse_attributes()?;
        if self.at(Token::Pub) || self.at(Token::Priv) {
            self.next();
        }
        if self.at(Token::Mod) {
            if attrs.len() > 0 {
                return Err("Attributes not allowed on mod declaration".to_string());
            }
            self.next();
            self.parse_ident()?;
            self.expect(Token::Semicolon)?;
            return Ok(Vec::new());
        }
        match self.peek() {
            Some(Token::Fn) => {
                let f = self.parse_fn_def(attrs)?;
                Ok(vec![Item::FnDef(f)])
            },
            Some(Token::Model) => {
                let m = self.parse_model_def(attrs)?;
                Ok(vec![Item::ModelDef(m)])
            },
            Some(Token::Implement) => {
                let i = self.parse_implement_def(attrs)?;
                Ok(vec![i])
            },
            Some(Token::Interface) => {
                let i = self.parse_interface_def(attrs)?;
                Ok(vec![i])
            },
            Some(Token::Use) => {
                if attrs.len() > 0 {
                    return Err("Attributes not allowed on use statement".to_string());
                }
                self.next();
                self.parse_use_item()
            },
            _ => {
                if attrs.len() > 0 {
                    return Err("Attributes are not supported for this item type".to_string());
                }
                match self.peek() {
                    Some(Token::Struct) => {
                        let s = self.parse_struct_def()?;
                        Ok(vec![Item::StructDef(s)])
                    },
                    Some(Token::Enum) => {
                        let e = self.parse_enum_def()?;
                        Ok(vec![Item::EnumDef(e)])
                    },
                    Some(Token::Const) => {
                        let c = self.parse_const_def()?;
                        Ok(vec![Item::ConstDef(c)])
                    },
                    _ => Err("Expected function, model, implement, interface, use, struct, enum, or const definition".to_string()),
                }
            },
        }
    }

    /// The rest of a `use`: `root::a::b [as c];` or `root::a::{X [as Y], ...};`, one `Use`
    /// item per imported name, its path the segments joined by `::`.
    fn parse_use_item(&mut self) -> (r: Result<Vec<Item>, String>)
        requires
            old(self).wf(),
        ensures
            Parser::advanced(*final(self), *old(self), r is Ok),
            r matches Ok(items) ==> forall|k: int| 0 <= k < items@.len() ==> #[trigger] items@[k] is Use,
            old(self).kind_ahead(0) == Some(Token::Ident) && old(self).kind_ahead(1) == Some(Token::Semicolon)
                ==> (r matches Ok(items) && items@.len() == 1 && (items@[0] matches Item::Use(u)
                    && u.path@ == old(self).text_ahead(0) && u.alias is None)) && final(self).pos == old(self).pos + 2,
            use_list_at(old(self).token_seq(), old(self).position()) matches Some((segs, es, end))
                ==> (r matches Ok(items) && items@.len() == es.len()
                    && (forall|i: int| 0 <= i < es.len() ==> use_item_is(#[trigger] items@[i], join_path(segs), es[i])))
                    && final(self).position() == end,
    {
        let ghost toks = old(self).token_seq();
        let ghost p0 = old(self).position();
        let ghost listed: bool = use_list_at(toks, p0) is Some;
        let ghost segs: Seq<Seq<char>> = if listed { use_list_at(toks, p0)->Some_0.0 } else { Seq::empty() };
        let ghost es: Seq<(Seq<char>, Option<Seq<char>>)> = if listed { use_list_at(toks, p0)->Some_0.1 } else { Seq::empty() };
        let ghost b: int = if listed { use_prefix(toks, p0)->Some_0.1 } else { 0 };
        let ghost e: int = if listed { use_entries(toks, b + 1)->Some_0.1 } else { 0 };
        let mut parts: Vec<String> = Vec::new();
        let first = self.parse_path_root()?;
        parts.push(first);
        let ghost s1 = *self;
        proof {
            if listed {
                assert(string_views(parts@) =~= seq![parts@[0]@]);
                assert(segs.take(1) =~= seq![segs[0]]);
                assert(segs.skip(0) =~= segs);
            }
        }
        while self.at(Token::PathSep)
            invariant
                self.wf(),
                Parser::consumed(*self, *old(self)),
                old(self).kind_ahead(0) == Some(Token::Ident) && old(self).kind_ahead(1) == Some(Token::Semicolon)
                    ==> *self == s1 && parts@.len() == 1 && parts@[0]@ == old(self).text_ahead(0)
                        && s1.pos == old(self).pos + 1 && s1.tokens == old(self).tokens,
                listed == (use_list_at(toks, p0) is Some),
                toks == old(self).token_seq(),
                p0 == old(self).position(),
                listed ==> use_list_at(toks, p0) == Some((segs, es, e + 2)) && use_prefix(toks, p0) == Some((segs, b))
                    && use_entries(toks, b + 1) == Some((es, e)),
                listed ==> 1 <= parts@.len() <= segs.len() && string_views(parts@) == segs.take(parts@.len() as int)
                    && use_prefix(toks, self.position() - 1) == Some((segs.skip(parts@.len() - 1), b))
                    && self.token_seq() == toks,
            decreases self.tokens@.len() - self.pos,
        {
            let ghost q = self.position() - 1;
            self.next();
            proof {
                if listed {
                    assert(self.kind_ahead(0) == kind_at(toks, q + 2));
                    if kind_at(toks, q + 2) == Some(Token::LBrace) {
                        assert(segs.skip(parts@.len() - 1) =~= seq![text_at(toks, q)]);
                        assert(segs.skip(parts@.len() - 1).len() == 1);
                        assert(parts@.len() == segs.len());
                        assert(segs.take(parts@.len() as int) =~= segs);
                    } else {
                        let rest = use_prefix(toks, q + 2)->Some_0.0;
                        assert(segs.skip(parts@.len() - 1) == seq![text_at(toks, q)] + rest);
                        assert(segs.skip(parts@.len() as int) =~= segs.skip(parts@.len() - 1).drop_first());
                        assert((seq![text_at(toks, q)] + rest).drop_first() =~= rest);
                        assert(self.text_ahead(0) == text_at(toks, q + 2));
                    }
                }
            }
            if self.at(Token::LBrace) {
                self.next();
                let base_path = join_parts(&parts);
                let mut items: Vec<Item> = Vec::new();
                loop
                    invariant_except_break
                        listed ==> items@.len() < es.len() && use_entries(toks, self.position()) == Some((es.skip(items@.len() as int), e)),
                    invariant
                        self.wf(),
                        Parser::consumed(*self, *old(self)),
                        forall|k: int| 0 <= k < items@.len() ==> #[trigger] items@[k] is Use,
                        !(old(self).kind_ahead(0) == Some(Token::Ident) && old(self).kind_ahead(1) == Some(Token::Semicolon)),
                        listed == (use_list_at(toks, p0) is Some),
                        toks == old(self).token_seq(),
                        p0 == old(self).position(),
                        listed ==> base_path@ == join_path(segs) && self.token_seq() == toks
                            && use_list_at(toks, p0) == Some((segs, es, e + 2)),
                        listed ==> forall|i: int| 0 <= i < items@.len() ==> use_item_is(#[trigger] items@[i], join_path(segs), es[i]),
                    ensures
                        listed ==> items@.len() == es.len() && self.position() == e && self.token_seq() == toks,
                        listed ==> forall|i: int| 0 <= i < items@.len() ==> use_item_is(#[trigger] items@[i], join_path(segs), es[i]),
                        forall|k: int| 0 <= k < items@.len() ==> #[trigger] items@[k] is Use,
                        self.wf(),
                        Parser::consumed(*self, *old(self)),
                    decreases self.tokens@.len() - self.pos,
                {
                    let ghost i = items@.len() as int;
                    let ghost cur = self.position();
                    proof {
                        if listed {
                            assert(self.kind_ahead(0) == kind_at(toks, cur));
                            assert(self.kind_ahead(1) == kind_at(toks, cur + 1));
                            assert(self.kind_ahead(2) == kind_at(toks, cur + 2));
                            assert(self.text_ahead(0) == text_at(toks, cur));
                            assert(self.text_ahead(2) == text_at(toks, cur + 2));
                            assert(use_entries(toks, cur) is Some);
                            assert(kind_at(toks, cur) == Some(Token::Ident));
                            if kind_at(toks, cur + 1) == Some(Token::As) {
                                assert(kind_at(toks, cur + 2) == Some(Token::Ident));
                            }
                        }
                    }
                    match self.peek() {
                        None => break,
                        Some(Token::RBrace) => break,
                        _ => {},
                    }
                    let name = self.parse_ident()?;
                    let mut full_path = base_path.clone();
                    push_str(&mut full_path, "::");
                    push_str(&mut full_path, name.as_str());
                    let alias = if self.at(Token::As) {
                        self.next();
                        Some(self.parse_ident()?)
                    } else {
                        None
                    };
                    let ghost ent = use_entry_at(toks, cur);
                    proof {
                        if listed {
                            let sk = es.skip(i);
                            assert(sk[0] == es[i]);
                            assert(ent.0 == es[i]);
                            assert(self.position() == ent.1);
                        }
                    }
                    items.push(Item::Use(UseStmt { path: full_path, alias }));
                    proof {
                        if listed {
                            if kind_at(toks, ent.1) == Some(Token::Comma) {
                                let rest = use_entries(toks, ent.1 + 1)->Some_0.0;
                                assert(es.skip(i) == seq![ent.0] + rest);
                                assert(es.skip(i + 1) =~= es.skip(i).drop_first());
                                assert((seq![ent.0] + rest).drop_first() =~= rest);
                            } else {
                                assert(es.skip(i) =~= seq![ent.0]);
                                assert(es.skip(i).len() == 1);
                            }
                        }
                    }
                    if self.at(Token::Comma) {
                        self.next();
                    } else {
                        break;
                    }
                }
                proof {
                    if listed {
                        lemma_use_entries_end(toks, b + 1);
                        assert(self.kind_ahead(0) == kind_at(toks, e));
                        assert(self.kind_ahead(1) == kind_at(toks, e + 1));
                    }
                }
                self.expect(Token::RBrace)?;
                self.expect(Token::Semicolon)?;
                return Ok(items);
            }
            let part = self.parse_ident()?;
            parts.push(part);
            proof {
                if listed {
                    lemma_views_push(parts@.drop_last(), parts@.last());
                    assert(parts@.drop_last() =~= parts@.take(parts@.len() - 1));
                    assert(segs.take(parts@.len() as int) =~= segs.take(parts@.len() - 1).push(segs[parts@.len() - 1]));
                    assert(segs.skip(parts@.len() - 1)[0] == segs[parts@.len() - 1]);
                }
            }
        }
        proof {
            if old(self).kind_ahead(0) == Some(Token::Ident) && old(self).kind_ahead(1) == Some(Token::Semicolon) {
                assert(string_views(parts@) =~= seq![old(self).text_ahead(0)]);
            }
        }
        let path = join_parts(&parts);
        let alias = if self.at(Token::As) {
            self.next();
            Some(self.parse_ident()?)
        } else {
            None
        };
        self.expect(Token::Semicolon)?;
        Ok(vec![Item::Use(UseStmt { path, alias })])
    }

    /// `[pub|priv] fn name[<T ...>](params) [-> T] { ... }`; the generic parameters are in
    /// scope in the signature and the body.
    fn parse_fn_def(&mut self, attributes: Vec<Attribute>) -> (r: Result<FnDef, String>)
        requires
            old(self).wf(),
        ensures
            Parser::advanced(*final(self), *old(self), r is Ok),
            r matches Ok(f) ==> f.attributes == attributes
                && (old(self).kind_ahead(0) == Some(Token::Fn) ==> f.name@ == old(self).text_ahead(1)),
            old(self).kind_ahead(0) == Some(Token::Fn) && old(self).kind_ahead(1) == Some(Token::Ident)
                && old(self).kind_ahead(2) == Some(Token::LParen) && old(self).kind_ahead(3) == Some(Token::RParen)
                && old(self).kind_ahead(4) == Some(Token::LBrace) && old(self).kind_ahead(5) == Some(Token::RBrace)
                ==> (r matches Ok(f) && f.params@.len() == 0 && f.return_type is None && f.body.stmts@.len() == 0
                    && f.generic_params@.len() == 0) && final(self).pos == old(self).pos + 6,
            old(self).kind_ahead(0) == Some(Token::Fn) && old(self).id_counter() + (old(self).token_count() - old(self).position()) < usize::MAX
                ==> (simple_fn_at(old(self).token_seq(), old(self).position()) matches Some((n, t, c, e))
                ==> (r matches Ok(f) && fn_described(f, (n, t, c)) && fn_body_at(old(self).token_seq(), old(self).position(), f))
                    && final(self).position() == e
                    && final(self).id_counter() <= old(self).id_counter() + (final(self).position() - old(self).position())),
    {
        self.skip_visibility();
        self.expect(Token::Fn)?;
        let name = self.parse_ident()?;
        let generic_params = self.parse_opt_generic_params()?;
        self.push_generic_scope(&generic_params);
        let inner = self.parse_fn_def_rest();
        self.pop_generic_scope();
        let (params, return_type, body) = inner?;
        Ok(FnDef { attributes, name, generic_params, params, return_type, body })
    }

    fn parse_fn_def_rest(&mut self) -> (r: Result<(Vec<Param>, Option<Type>, Block), String>)
        requires
            old(self).wf(),
        ensures
            old(self).kind_ahead(0) == Some(Token::LParen) && old(self).kind_ahead(1) == Some(Token::RParen)
                && old(self).kind_ahead(2) == Some(Token::LBrace) && old(self).kind_ahead(3) == Some(Token::RBrace)
                ==> (r matches Ok((ps, rt, b)) && ps@.len() == 0 && rt is None && b.stmts@.len() == 0)
                    && final(self).pos == old(self).pos + 4,
            old(self).kind_ahead(0) == Some(Token::LParen) && old(self).id_counter() + (old(self).token_count() - old(self).position()) < usize::MAX
                ==> (simple_fn_at(old(self).token_seq(), old(self).position() - 2) matches Some((n, t, c, e))
                ==> (r matches Ok((ps, rt, b)) && ps@.len() == 0 && rt == t && b.stmts@.len() == c
                    && stmts_at(old(self).token_seq(), simple_fn_body_at(old(self).token_seq(), old(self).position() - 2) + 1, b.stmts@))
                    && final(self).position() == e
                    && final(self).id_counter() <= old(self).id_counter() + (final(self).position() - old(self).position())),
            Parser::advanced(*final(self), *old(self), r is Ok),
    {
        self.expect(Token::LParen)?;
        let params = self.parse_params()?;
        self.expect(Token::RParen)?;
        let return_type = self.parse_opt_return_type()?;
        let body = self.parse_block()?;
        Ok((params, return_type, body))
    }

    /// `model Name[<T ...>] { (var|let) f: T [= e]; ... fn ... }`; a field's initializer is
    /// read and dropped.
    fn parse_model_def(&mut self, attributes: Vec<Attribute>) -> (r: Result<ModelDef, String>)
        requires
            old(self).wf(),
        ensures
            Parser::advanced(*final(self), *old(self), r is Ok),
            r matches Ok(m) ==> m.name@ == old(self).text_ahead(1),
            old(self).kind_ahead(0) == Some(Token::Model) && old(self).kind_ahead(1) == Some(Token::Ident)
                && old(self).kind_ahead(2) == Some(Token::LBrace) && old(self).kind_ahead(3) == Some(Token::RBrace)
                ==> (r matches Ok(m) && m.fields@.len() == 0 && m.functions@.len() == 0 && m.generic_params@.len() == 0
                    && m.attributes == attributes) && final(self).pos == old(self).pos + 4,
    {
        self.expect(Token::Model)?;
        let name = self.parse_ident()?;
        let generic_params = self.parse_opt_generic_params()?;
        self.expect(Token::LBrace)?;
        let ghost s1 = *self;
        let mut fields: Vec<ModelField> = Vec::new();
        let mut functions: Vec<FnDef> = Vec::new();
        loop
            invariant
                self.wf(),
                Parser::consumed(*self, *old(self)),
                old(self).kind_ahead(0) == Some(Token::Model) && old(self).kind_ahead(1) == Some(Token::Ident)
                    && old(self).kind_ahead(2) == Some(Token::LBrace) && old(self).kind_ahead(3) == Some(Token::RBrace)
                    ==> *self == s1 && fields@.len() == 0 && functions@.len() == 0 && generic_params@.len() == 0
                        && s1.pos == old(self).pos + 3 && s1.token_seq() == old(self).token_seq()
                        && s1.token_count() == old(self).token_count(),
            decreases self.tokens@.len() - self.pos,
        {
            match self.peek() {
                None => break,
                Some(Token::RBrace) => break,
                Some(Token::Var) | Some(Token::Let) => {
                    self.next();
                    let field_name = self.parse_ident()?;
                    self.expect(Token::Colon)?;
                    let ty = self.parse_type()?;
                    if self.at(Token::Eq) {
                        self.next();
                        self.parse_expr()?;
                    }
                    self.expect(Token::Semicolon)?;
                    fields.push(ModelField { name: field_name, ty });
                },
                Some(Token::Fn) => {
                    let fn_attrs = self.parse_attributes()?;
                    let f = self.parse_fn_def(fn_attrs)?;
                    functions.push(f);
                },
                _ => {
                    return Err("Expected field (var/let) or function (fn) definition in model block".to_string());
                },
            }
        }
        self.expect(Token::RBrace)?;
        Ok(ModelDef { attributes, name, generic_params, fields, functions })
    }

    /// `implement[<T ...>] Target [where ...] { fn ... }` or
    /// `implement[<T ...>] Interface for Target [where ...] { fn ... }`. The generic
    /// parameters are in scope up to the closing brace, and out of scope afterwards whether
    /// the block parsed or not. A `(` after the header is an error.
    fn parse_implement_def(&mut self, attributes: Vec<Attribute>) -> (r: Result<Item, String>)
        requires
            old(self).wf(),
        ensures
            Parser::advanced(*final(self), *old(self), r is Ok),
            r matches Ok(i) ==> i is Implement,
            old(self).kind_ahead(0) == Some(Token::Implement)
                && (old(self).kind_ahead(1) matches Some(k) && primitive_type_of(k) is Some)
                && old(self).kind_ahead(2) == Some(Token::LBrace) && old(self).kind_ahead(3) == Some(Token::RBrace)
                ==> (r matches Ok(Item::Implement(d)) && Some(d.target_type) == primitive_type_of(old(self).kind_ahead(1)->0)
                    && d.interface_name is None && d.functions@.len() == 0 && d.where_clause@.len() == 0
                    && d.generic_params@.len() == 0 && d.attributes == attributes) && final(self).pos == old(self).pos + 4,
    {
        self.expect(Token::Implement)?;
        let generic_params = self.parse_opt_generic_params()?;
        self.push_generic_scope(&generic_params);
        let inner = self.parse_implement_rest();
        self.pop_generic_scope();
        let (target_type, interface_name, where_clause, functions) = inner?;
        Ok(Item::Implement(ImplementDef { attributes, generic_params, target_type, interface_name, functions, where_clause }))
    }

    fn parse_implement_rest(&mut self) -> (r: Result<(Type, Option<String>, Vec<WhereClause>, Vec<FnDef>), String>)
        requires
            old(self).wf(),
        ensures
            Parser::advanced(*final(self), *old(self), r is Ok),
            (old(self).kind_ahead(0) matches Some(k) && primitive_type_of(k) is Some)
                && old(self).kind_ahead(1) == Some(Token::LBrace) && old(self).kind_ahead(2) == Some(Token::RBrace)
                ==> (r matches Ok((t, i, w, fs)) && Some(t) == primitive_type_of(old(self).kind_ahead(0)->0)
                    && i is None && w@.len() == 0 && fs@.len() == 0) && final(self).pos == old(self).pos + 3,
            old(self).kind_ahead(0) == Some(Token::Ident) && old(self).text_ahead(0) != "Tensor"@
                && old(self).text_ahead(0) != "usize"@ && old(self).text_ahead(0) != "isize"@
                && !generic_active(old(self).scopes(), old(self).text_ahead(0))
                && old(self).kind_ahead(1) == Some(Token::For)
                && (old(self).kind_ahead(2) matches Some(k) && primitive_type_of(k) is Some)
                && old(self).kind_ahead(3) == Some(Token::LBrace) && old(self).kind_ahead(4) == Some(Token::RBrace)
                ==> (r matches Ok((t, i, w, fs)) && Some(t) == primitive_type_of(old(self).kind_ahead(2)->0)
                    && (i matches Some(x) && x@ == old(self).text_ahead(0)) && w@.len() == 0 && fs@.len() == 0)
                    && final(self).pos == old(self).pos + 5,
            (old(self).kind_ahead(0) matches Some(k) && primitive_type_of(k) is Some)
                && old(self).kind_ahead(1) == Some(Token::LParen)
                ==> (r matches Err(m) && m@ == "Unexpected '(' after implement header at pos "@
                    + decimal_text((old(self).pos + 1) as nat)),
            old(self).named_for_prim_ahead() && old(self).kind_ahead(3) == Some(Token::LParen)
                ==> (r matches Err(m) && m@ == "Unexpected '(' after implement header at pos "@
                    + decimal_text((old(self).pos + 3) as nat)),
            old(self).named_for_named_ahead() && old(self).kind_ahead(3) == Some(Token::LBrace)
                && old(self).kind_ahead(4) == Some(Token::RBrace)
                ==> (r matches Ok((t, i, w, fs)) && old(self).names_type(t, old(self).text_ahead(2))
                    && (i matches Some(x) && x@ == old(self).text_ahead(0)) && w@.len() == 0 && fs@.len() == 0)
                    && final(self).pos == old(self).pos + 5,
            old(self).named_for_named_ahead() && old(self).kind_ahead(3) == Some(Token::LParen)
                ==> (r matches Err(m) && m@ == "Unexpected '(' after implement header at pos "@
                    + decimal_text((old(self).pos + 3) as nat)),
    {
        let first_type = self.parse_type()?;
        let (target_type, interface_name) = if self.at(Token::For) {
            self.next();
            let interface_name = match &first_type {
                Type::Struct(name) => name.clone(),
                Type::Generic(name, _) => name.clone(),
                _ => return Err("Expected interface name before 'for'".to_string()),
            };
            let target_type = self.parse_type()?;
            (target_type, Some(interface_name))
        } else {
            (first_type, None)
        };
        let where_clause = if self.at(Token::Where) {
            self.next();
            self.parse_where_clause()?
        } else {
            Vec::new()
        };
        if self.at(Token::LParen) {
            let mut m = String::new();
            push_str(&mut m, "Unexpected '(' after implement header at pos ");
            push_decimal(&mut m, self.pos);
            return Err(m);
        }
        self.expect(Token::LBrace)?;
        let ghost s1 = *self;
        let mut functions: Vec<FnDef> = Vec::new();
        loop
            invariant
                !((old(self).kind_ahead(0) matches Some(k) && primitive_type_of(k) is Some)
                    && old(self).kind_ahead(1) == Some(Token::LParen)),
                !(old(self).named_for_prim_ahead() && old(self).kind_ahead(3) == Some(Token::LParen)),
                !(old(self).named_for_named_ahead() && old(self).kind_ahead(3) == Some(Token::LParen)),
                old(self).named_for_named_ahead() && old(self).kind_ahead(3) == Some(Token::LBrace)
                    && old(self).kind_ahead(4) == Some(Token::RBrace)
                    ==> *self == s1 && functions@.len() == 0 && s1.pos == old(self).pos + 4
                        && s1.token_seq() == old(self).token_seq() && s1.token_count() == old(self).token_count()
                        && old(self).names_type(target_type, old(self).text_ahead(2))
                        && (interface_name matches Some(x) && x@ == old(self).text_ahead(0))
                        && where_clause@.len() == 0,
                self.wf(),
                Parser::consumed(*self, *old(self)),
                (old(self).kind_ahead(0) matches Some(k) && primitive_type_of(k) is Some)
                    && old(self).kind_ahead(1) == Some(Token::LBrace) && old(self).kind_ahead(2) == Some(Token::RBrace)
                    ==> *self == s1 && functions@.len() == 0 && s1.pos == old(self).pos + 2
                        && s1.token_seq() == old(self).token_seq() && s1.token_count() == old(self).token_count()
                        && Some(target_type) == primitive_type_of(old(self).kind_ahead(0)->0) && interface_name is None
                        && where_clause@.len() == 0,
                old(self).kind_ahead(0) == Some(Token::Ident) && old(self).text_ahead(0) != "Tensor"@
                    && old(self).text_ahead(0) != "usize"@ && old(self).text_ahead(0) != "isize"@
                    && !generic_active(old(self).scopes(), old(self).text_ahead(0))
                    && old(self).kind_ahead(1) == Some(Token::For)
                    && (old(self).kind_ahead(2) matches Some(k) && primitive_type_of(k) is Some)
                    && old(self).kind_ahead(3) == Some(Token::LBrace) && old(self).kind_ahead(4) == Some(Token::RBrace)
                    ==> *self == s1 && functions@.len() == 0 && s1.pos == old(self).pos + 4
                        && s1.token_seq() == old(self).token_seq() && s1.token_count() == old(self).token_count()
                        && Some(target_type) == primitive_type_of(old(self).kind_ahead(2)->0)
                        && (interface_name matches Some(x) && x@ == old(self).text_ahead(0))
                        && where_clause@.len() == 0,
            decreases self.tokens@.len() - self.pos,
        {
            match self.peek() {
                None => break,
                Some(Token::RBrace) => break,
                _ => {},
            }
            let fn_attrs = self.parse_attributes()?;
            let f = self.parse_fn_def(fn_attrs)?;
            functions.push(f);
        }
        self.expect(Token::RBrace)?;
        Ok((target_type, interface_name, where_clause, functions))
    }

    /// `interface Name[<T ...>] { fn-signature; ... }`; the generic parameters are in scope
    /// up to the closing brace, and out of scope afterwards whether the block parsed or not.
    fn parse_interface_def(&mut self, attributes: Vec<Attribute>) -> (r: Result<Item, String>)
        requires
            old(self).wf(),
        ensures
            Parser::advanced(*final(self), *old(self), r is Ok),
            r matches Ok(i) ==> i is Interface,
            old(self).kind_ahead(0) == Some(Token::Interface) && old(self).kind_ahead(1) == Some(Token::Ident)
                && old(self).kind_ahead(2) == Some(Token::LBrace) && old(self).kind_ahead(3) == Some(Token::RBrace)
                ==> (r matches Ok(Item::Interface(d)) && d.name@ == old(self).text_ahead(1) && d.methods@.len() == 0
                    && d.generic_params@.len() == 0 && d.attributes == attributes) && final(self).pos == old(self).pos + 4,
    {
        self.expect(Token::Interface)?;
        let name = self.parse_ident()?;
        let generic_params = self.parse_opt_generic_params()?;
        self.push_generic_scope(&generic_params);
        let inner = self.parse_interface_body();
        self.pop_generic_scope();
        let methods = inner?;
        Ok(Item::Interface(InterfaceDef { attributes, name, generic_params, methods }))
    }

    fn parse_interface_body(&mut self) -> (r: Result<Vec<FnSig>, String>)
        requires
            old(self).wf(),
        ensures
            Parser::advanced(*final(self), *old(self), r is Ok),
            old(self).kind_ahead(0) == Some(Token::LBrace) && old(self).kind_ahead(1) == Some(Token::RBrace)
                ==> (r matches Ok(v) && v@.len() == 0) && final(self).pos == old(self).pos + 2,
    {
        self.expect(Token::LBrace)?;
        let ghost s1 = *self;
        let mut methods: Vec<FnSig> = Vec::new();
        loop
            invariant
                self.wf(),
                Parser::consumed(*self, *old(self)),
                old(self).kind_ahead(0) == Some(Token::LBrace) && old(self).kind_ahead(1) == Some(Token::RBrace)
                    ==> *self == s1 && methods@.len() == 0 && s1.pos == old(self).pos + 1 && s1.tokens == old(self).tokens,
            decreases self.tokens@.len() - self.pos,
        {
            match self.peek() {
                None => break,
                Some(Token::RBrace) => break,
                _ => {},
            }
            let sig = self.parse_fn_sig()?;
            methods.push(sig);
        }
        self.expect(Token::RBrace)?;
        Ok(methods)
    }

    /// `struct Name[<T ...>] { f: T, ... }` (a trailing comma is allowed); the generic
    /// parameters are in scope in the fields only.
    fn parse_struct_def(&mut self) -> (r: Result<StructDef, String>)
        requires
            old(self).wf(),
        ensures
            Parser::advanced(*final(self), *old(self), r is Ok),
            r matches Ok(s) ==> s.name@ == old(self).text_ahead(1),
            r matches Ok(s) ==> struct_body_written(old(self).token_seq(), old(self).scopes(), s, final(self).position()),
            old(self).kind_ahead(0) == Some(Token::Struct) && old(self).kind_ahead(1) == Some(Token::Ident)
                && old(self).kind_ahead(2) == Some(Token::LBrace) && old(self).kind_ahead(3) == Some(Token::RBrace)
                ==> (r matches Ok(s) && s.fields@.len() == 0 && s.generic_params@.len() == 0)
                    && final(self).pos == old(self).pos + 4,
    {
        self.expect(Token::Struct)?;
        let name = self.parse_ident()?;
        let generic_params = self.parse_opt_generic_params()?;
        self.push_generic_scope(&generic_params);
        let ghost names = self.scopes().last();
        let ghost k = self.position() + 1;
        proof {
            assert(self.scopes() =~= old(self).scopes().push(names));
            assert(string_views(names@) =~= generic_names(generic_params@));
        }
        let ghost body_scopes = self.scopes();
        let inner = self.parse_struct_body();
        self.pop_generic_scope();
        let fields = inner?;
        assert(fields_end(old(self).token_seq(), old(self).scopes().push(names), k, fields@) == Some(self.position())) by {
            assert(body_scopes == old(self).scopes().push(names));
        }
        assert(kind_at(old(self).token_seq(), k - 1) == Some(Token::LBrace));
        assert(string_views(names@) == generic_names(generic_params@));
        let sd = StructDef { name, generic_params, fields };
        assert(struct_body_written(old(self).token_seq(), old(self).scopes(), sd, self.position()));
        Ok(sd)
    }

    fn parse_struct_body(&mut self) -> (r: Result<Vec<StructField>, String>)
        requires
            old(self).wf(),
        ensures
            Parser::advanced(*final(self), *old(self), r is Ok),
            r matches Ok(fs) ==> kind_at(old(self).token_seq(), old(self).position()) == Some(Token::LBrace)
                && fields_end(old(self).token_seq(), old(self).scopes(), old(self).position() + 1, fs@)
                    == Some(final(self).position()),
            old(self).kind_ahead(0) == Some(Token::LBrace) && old(self).kind_ahead(1) == Some(Token::RBrace)
                ==> (r matches Ok(v) && v@.len() == 0) && final(self).pos == old(self).pos + 2,
    {
        let ghost toks = self.token_seq();
        let ghost scopes = self.scopes();
        let ghost first = self.position() + 1;
        self.expect(Token::LBrace)?;
        let ghost s1 = *self;
        let mut fields: Vec<StructField> = Vec::new();
        assert forall|rest: Seq<StructField>| #[trigger] fields_end(toks, scopes, first, fields@ + rest)
            == fields_end(toks, scopes, self.position(), rest) by {
            assert(fields@ + rest =~= rest);
        }
        loop
            invariant
                self.wf(),
                Parser::consumed(*self, *old(self)),
                toks == self.token_seq(),
                scopes == self.scopes(),
                first == old(self).position() + 1,
                kind_at(toks, old(self).position()) == Some(Token::LBrace),
                forall|rest: Seq<StructField>| #[trigger] fields_end(toks, scopes, first, fields@ + rest)
                    == fields_end(toks, scopes, self.position(), rest),
                old(self).kind_ahead(0) == Some(Token::LBrace) && old(self).kind_ahead(1) == Some(Token::RBrace)
                    ==> *self == s1 && fields@.len() == 0 && s1.pos == old(self).pos + 1 && s1.tokens == old(self).tokens,
            decreases self.tokens@.len() - self.pos,
        {
            match self.peek() {
                None => break,
                Some(Token::RBrace) => break,
                _ => {},
            }
            let ghost cur = self.position();
            let ghost before = fields@;
            let field_name = self.parse_ident()?;
            self.expect(Token::Colon)?;
            let ty = self.parse_type()?;
            let ghost f = StructField { name: field_name, ty };
            fields.push(StructField { name: field_name, ty });
            proof {
                let k = self.position();
                assert forall|rest: Seq<StructField>| #[trigger] fields_end(toks, scopes, first, fields@ + rest)
                    == fields_end(toks, scopes, cur, seq![f] + rest) by {
                    assert(fields@ + rest =~= before + (seq![f] + rest));
                }
                assert forall|rest: Seq<StructField>| (seq![f] + rest)[0] == f && (seq![f] + rest).drop_first() =~= rest by {}
            }
            match self.peek() {
                Some(Token::Comma) => {
                    self.next();
                    if self.at(Token::RBrace) {
                        break;
                    }
                },
                Some(Token::RBrace) => break,
                _ => return Err("Expected comma or closing brace".to_string()),
            }
        }
        let ghost before_brace = self.position();
        self.expect(Token::RBrace)?;
        assert(fields@ + Seq::<StructField>::empty() =~= fields@);
        assert(fields_end(toks, scopes, before_brace, Seq::<StructField>::empty()) == Some(before_brace + 1));
        Ok(fields)
    }

    /// `enum Name[<T ...>] { V, W(T), ... }` (a trailing comma is allowed); the generic
    /// parameters are in scope in the variants only.
    fn parse_enum_def(&mut self) -> (r: Result<EnumDef, String>)
        requires
            old(self).wf(),
        ensures
            Parser::advanced(*final(self), *old(self), r is Ok),
            r matches Ok(e) ==> e.name@ == old(self).text_ahead(1),
            r matches Ok(e) ==> enum_body_written(old(self).token_seq(), old(self).scopes(), e, final(self).position()),
            old(self).kind_ahead(0) == Some(Token::Enum) && old(self).kind_ahead(1) == Some(Token::Ident)
                && old(self).kind_ahead(2) == Some(Token::LBrace) && old(self).kind_ahead(3) == Some(Token::RBrace)
                ==> (r matches Ok(e) && e.variants@.len() == 0 && e.generic_params@.len() == 0)
                    && final(self).pos == old(self).pos + 4,
    {
        self.expect(Token::Enum)?;
        let name = self.parse_ident()?;
        let generic_params = self.parse_opt_generic_params()?;
        self.push_generic_scope(&generic_params);
        let ghost names = self.scopes().last();
        let ghost k = self.position() + 1;
        proof {
            assert(self.scopes() =~= old(self).scopes().push(names));
            assert(string_views(names@) =~= generic_names(generic_params@));
        }
        let ghost body_scopes = self.scopes();
        let inner = self.parse_enum_body();
        self.pop_generic_scope();
        let variants = inner?;
        assert(variants_end(old(self).token_seq(), old(self).scopes().push(names), k, variants@) == Some(self.position())) by {
            assert(body_scopes == old(self).scopes().push(names));
        }
        assert(kind_at(old(self).token_seq(), k - 1) == Some(Token::LBrace));
        assert(string_views(names@) == generic_names(generic_params@));
        let ed = EnumDef { name, generic_params, variants };
        assert(enum_body_written(old(self).token_seq(), old(self).scopes(), ed, self.position()));
        Ok(ed)
    }

    #[verifier::rlimit(40)]
    fn parse_enum_body(&mut self) -> (r: Result<Vec<EnumVariant>, String>)
        requires
            old(self).wf(),
        ensures
            Parser::advanced(*final(self), *old(self), r is Ok),
            r matches Ok(vs) ==> kind_at(old(self).token_seq(), old(self).position()) == Some(Token::LBrace)
                && variants_end(old(self).token_seq(), old(self).scopes(), old(self).position() + 1, vs@)
                    == Some(final(self).position()),
            old(self).kind_ahead(0) == Some(Token::LBrace) && old(self).kind_ahead(1) == Some(Token::RBrace)
                ==> (r matches Ok(v) && v@.len() == 0) && final(self).pos == old(self).pos + 2,
    {
        let ghost toks = self.token_seq();
        let ghost scopes = self.scopes();
        let ghost first = self.position() + 1;
        self.expect(Token::LBrace)?;
        let ghost s1 = *self;
        let mut variants: Vec<EnumVariant> = Vec::new();
        assert forall|rest: Seq<EnumVariant>| #[trigger] variants_end(toks, scopes, first, variants@ + rest)
            == variants_end(toks, scopes, self.position(), rest) by {
            assert(variants@ + rest =~= rest);
        }
        loop
            invariant
                self.wf(),
                Parser::consumed(*self, *old(self)),
                toks == self.token_seq(),
                scopes == self.scopes(),
                first == old(self).position() + 1,
                kind_at(toks, old(self).position()) == Some(Token::LBrace),
                forall|rest: Seq<EnumVariant>| #[trigger] variants_end(toks, scopes, first, variants@ + rest)
                    == variants_end(toks, scopes, self.position(), rest),
                old(self).kind_ahead(0) == Some(Token::LBrace) && old(self).kind_ahead(1) == Some(Token::RBrace)
                    ==> *self == s1 && variants@.len() == 0 && s1.pos == old(self).pos + 1 && s1.tokens == old(self).tokens,
            decreases self.tokens@.len() - self.pos,
        {
            match self.peek() {
                None => break,
                Some(Token::RBrace) => break,
                _ => {},
            }
            let ghost cur = self.position();
            let ghost before = variants@;
            let variant_name = self.parse_ident()?;
            let ty = if self.at(Token::LParen) {
                self.next();
                let param_ty = self.parse_type()?;
                self.expect(Token::RParen)?;
                Some(param_ty)
            } else {
                None
            };
            let ghost v = EnumVariant { name: variant_name, ty };
            variants.push(EnumVariant { name: variant_name, ty });
            proof {
                assert(variant_end(toks, scopes, cur, v) == Some(self.position()));
                assert forall|rest: Seq<EnumVariant>| #[trigger] variants_end(toks, scopes, first, variants@ + rest)
                    == variants_end(toks, scopes, cur, seq![v] + rest) by {
                    assert(variants@ + rest =~= before + (seq![v] + rest));
                }
                assert forall|rest: Seq<EnumVariant>| (seq![v] + rest)[0] == v && (seq![v] + rest).drop_first() =~= rest by {}
            }
            match self.peek() {
                Some(Token::Comma) => {
                    self.next();
                    if self.at(Token::RBrace) {
                        break;
                    }
                },
                Some(Token::RBrace) => break,
                _ => return Err("Expected comma or closing brace".to_string()),
            }
        }
        let ghost before_brace = self.position();
        self.expect(Token::RBrace)?;
        assert(variants@ + Seq::<EnumVariant>::empty() =~= variants@);
        assert(variants_end(toks, scopes, before_brace, Seq::<EnumVariant>::empty()) == Some(before_brace + 1));
        Ok(variants)
    }

    /// `const NAME: T = e;`
    fn parse_const_def(&mut self) -> (r: Result<ConstDef, String>)
        requires
            old(self).wf(),
        ensures
            Parser::advanced(*final(self), *old(self), r is Ok),
            r matches Ok(c) ==> c.name@ == old(self).text_ahead(1),
            old(self).kind_ahead(0) == Some(Token::Const) && old(self).kind_ahead(1) == Some(Token::Ident)
                && old(self).kind_ahead(2) == Some(Token::Colon)
                && (old(self).kind_ahead(3) matches Some(k) && primitive_type_of(k) is Some)
                && old(self).kind_ahead(4) == Some(Token::Eq) && int_ok(*old(self), 5)
                && old(self).kind_ahead(6) == Some(Token::Semicolon) && old(self).id_counter() < usize::MAX
                ==> (r matches Ok(c) && Some(c.ty) == primitive_type_of(old(self).kind_ahead(3)->0)
                    && (c.value.kind matches ExprKind::Literal(Literal::Int(v)) && v == decimal_value(old(self).text_ahead(5))))
                    && final(self).pos == old(self).pos + 7,
    {
        self.expect(Token::Const)?;
        let name = self.parse_ident()?;
        self.expect(Token::Colon)?;
        let ty = self.parse_type()?;
        self.expect(Token::Eq)?;
        let value = Box::new(self.parse_expr()?);
        self.expect(Token::Semicolon)?;
        Ok(ConstDef { name, ty, value })
    }
}

} // verus!
