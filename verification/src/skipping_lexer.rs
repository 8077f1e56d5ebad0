//! A lexer that never fails: a character where no token starts is passed over, and every
//! token keeps its text exactly as written (string literals with their quotes and escapes).
use vstd::prelude::*;
use crate::token::Token;
use crate::lexer::{scan, scan_at, Lexeme, Scan, token_texts};
use crate::text::{chars_of, string_from_range};

verus! {

/// The tokens of `s` from index `i` on with their texts as written; trivia dropped and any
/// character where no token starts passed over.
pub open spec fn lex_skipping(s: Seq<char>, i: int) -> Seq<(Token, Seq<char>)>
    decreases s.len() - i,
{
    if i < 0 || i >= s.len() {
        seq![]
    } else {
        match scan_at(s, i) {
            Scan::Skip(e) => if i < e <= s.len() { lex_skipping(s, e) } else { seq![] },
            Scan::Emit(t, e) => if i < e <= s.len() {
                seq![(t, s.subrange(i, e))] + lex_skipping(s, e)
            } else {
                seq![]
            },
            Scan::Fail => lex_skipping(s, i + 1),
        }
    }
}

/// A lexer over a source text that passes over what it cannot read.
pub struct Lexer {
    chars: Vec<char>,
}

impl Lexer {
    /// The source text.
    pub closed spec fn text(&self) -> Seq<char> {
        self.chars@
    }

    /// A lexer over `input`.
    pub fn new(input: &str) -> (l: Lexer)
        ensures
            l.text() == input@,
    {
        Lexer { chars: chars_of(input) }
    }

    /// The tokens of the whole text with their texts as written (see [`lex_skipping`]).
    pub fn tokenize(&mut self) -> (r: Vec<(Token, String)>)
        ensures
            final(self).text() == old(self).text(),
            token_texts(r@) == lex_skipping(old(self).text(), 0),
    {
        let ghost s = self.chars@;
        let n = self.chars.len();
        let mut out: Vec<(Token, String)> = Vec::new();
        let mut pos: usize = 0;
        while pos < n
            invariant
                self.chars@ == s,
                s == old(self).chars@,
                n == s.len(),
                pos <= n,
                token_texts(out@) + lex_skipping(s, pos as int) == lex_skipping(s, 0),
            decreases n - pos,
        {
            let i = pos;
            match scan(&self.chars, i) {
                Lexeme::Skip(e) => {
                    pos = e;
                },
                Lexeme::Emit(t, e) => {
                    let value = string_from_range(&self.chars, i, e);
                    let ghost old_out = out@;
                    out.push((t, value));
                    proof {
                        assert(token_texts(out@) == token_texts(old_out) + seq![(t, s.subrange(i as int, e as int))]);
                        assert(token_texts(old_out) + (seq![(t, s.subrange(i as int, e as int))] + lex_skipping(s, e as int))
                            == token_texts(out@) + lex_skipping(s, e as int));
                    }
                    pos = e;
                },
                Lexeme::Fail => {
                    pos = i + 1;
                },
            }
        }
        assert(token_texts(out@) + lex_skipping(s, pos as int) == token_texts(out@) + seq![]);
        assert(token_texts(out@) + seq![] == token_texts(out@));
        out
    }
}

} // verus!
