use vstd::prelude::*;

verus! {

/// The tokens of the language. Keywords, operators and delimiters are fixed words;
/// `Ident`, `Integer`, `Float` and `String` are classes of words; the last four
/// kinds are trivia that the lexer recognises and drops.
#[derive(Debug, PartialEq, Eq, Clone, Copy, Structural)]
pub enum Token {
    Fn,
    Let,
    Var,
    Mut,
    Const,
    Struct,
    Enum,
    Interface,
    Implement,
    TypeKw,
    Mod,
    Use,
    Pub,
    Priv,
    Extern,
    Crate,
    Super,
    Here,
    If,
    Else,
    Lack,
    Match,
    For,
    In,
    While,
    Loop,
    Break,
    Continue,
    Return,
    Yield,
    Bind,
    Is,
    As,
    Where,
    Try,
    Async,
    Await,
    Gen,
    Snapshot,
    Ref,
    Persist,
    Proto,
    Unsafe,
    Verify,
    Deterministic,
    Probabilistic,
    Checkpoint,
    Actor,
    Model,
    Tensor,
    SelfType,
    SelfLower,
    True,
    False,
    Nil,
    Bytes,
    I8,
    I16,
    I32,
    I64,
    I128,
    U8,
    U16,
    U32,
    U64,
    U128,
    F16,
    F32,
    F64,
    Bool,
    Char,
    Str,
    Never,
    Ident,
    Integer,
    Float,
    String,
    Plus,
    Minus,
    Star,
    Slash,
    Percent,
    Eq,
    EqEq,
    PlusEq,
    MinusEq,
    StarEq,
    SlashEq,
    PercentEq,
    Neq,
    Lt,
    Gt,
    Le,
    Ge,
    And,
    Or,
    Bang,
    Pipe,
    Amp,
    Question,
    Arrow,
    FatArrow,
    Range,
    PathSep,
    LBrace,
    RBrace,
    LBracket,
    RBracket,
    LParen,
    RParen,
    Colon,
    Semicolon,
    Comma,
    Dot,
    Pound,
    DocComment,
    LineComment,
    BlockComment,
    Whitespace,
}

/// The keyword token spelled by `w`, if `w` is a keyword.
pub open spec fn keyword_of(w: Seq<char>) -> Option<Token> {
    if w.len() == 2 && w[0] == 'f' && w[1] == 'n' {
        Some(Token::Fn)
    } else if w.len() == 3 && w[0] == 'l' && w[1] == 'e' && w[2] == 't' {
        Some(Token::Let)
    } else if w.len() == 3 && w[0] == 'v' && w[1] == 'a' && w[2] == 'r' {
        Some(Token::Var)
    } else if w.len() == 3 && w[0] == 'm' && w[1] == 'u' && w[2] == 't' {
        Some(Token::Mut)
    } else if w.len() == 5 && w[0] == 'c' && w[1] == 'o' && w[2] == 'n' && w[3] == 's' && w[4] == 't' {
        Some(Token::Const)
    } else if w.len() == 6 && w[0] == 's' && w[1] == 't' && w[2] == 'r' && w[3] == 'u' && w[4] == 'c' && w[5] == 't' {
        Some(Token::Struct)
    } else if w.len() == 4 && w[0] == 'e' && w[1] == 'n' && w[2] == 'u' && w[3] == 'm' {
        Some(Token::Enum)
    } else if w.len() == 9 && w[0] == 'i' && w[1] == 'n' && w[2] == 't' && w[3] == 'e' && w[4] == 'r' && w[5] == 'f' && w[6] == 'a' && w[7] == 'c' && w[8] == 'e' {
        Some(Token::Interface)
    } else if w.len() == 9 && w[0] == 'i' && w[1] == 'm' && w[2] == 'p' && w[3] == 'l' && w[4] == 'e' && w[5] == 'm' && w[6] == 'e' && w[7] == 'n' && w[8] == 't' {
        Some(Token::Implement)
    } else if w.len() == 4 && w[0] == 't' && w[1] == 'y' && w[2] == 'p' && w[3] == 'e' {
        Some(Token::TypeKw)
    } else if w.len() == 3 && w[0] == 'm' && w[1] == 'o' && w[2] == 'd' {
        Some(Token::Mod)
    } else if w.len() == 3 && w[0] == 'u' && w[1] == 's' && w[2] == 'e' {
        Some(Token::Use)
    } else if w.len() == 3 && w[0] == 'p' && w[1] == 'u' && w[2] == 'b' {
        Some(Token::Pub)
    } else if w.len() == 4 && w[0] == 'p' && w[1] == 'r' && w[2] == 'i' && w[3] == 'v' {
        Some(Token::Priv)
    } else if w.len() == 6 && w[0] == 'e' && w[1] == 'x' && w[2] == 't' && w[3] == 'e' && w[4] == 'r' && w[5] == 'n' {
        Some(Token::Extern)
    } else if w.len() == 5 && w[0] == 'c' && w[1] == 'r' && w[2] == 'a' && w[3] == 't' && w[4] == 'e' {
        Some(Token::Crate)
    } else if w.len() == 5 && w[0] == 's' && w[1] == 'u' && w[2] == 'p' && w[3] == 'e' && w[4] == 'r' {
        Some(Token::Super)
    } else if w.len() == 4 && w[0] == 'h' && w[1] == 'e' && w[2] == 'r' && w[3] == 'e' {
        Some(Token::Here)
    } else if w.len() == 2 && w[0] == 'i' && w[1] == 'f' {
        Some(Token::If)
    } else if w.len() == 4 && w[0] == 'e' && w[1] == 'l' && w[2] == 's' && w[3] == 'e' {
        Some(Token::Else)
    } else if w.len() == 4 && w[0] == 'l' && w[1] == 'a' && w[2] == 'c' && w[3] == 'k' {
        Some(Token::Lack)
    } else if w.len() == 5 && w[0] == 'm' && w[1] == 'a' && w[2] == 't' && w[3] == 'c' && w[4] == 'h' {
        Some(Token::Match)
    } else if w.len() == 3 && w[0] == 'f' && w[1] == 'o' && w[2] == 'r' {
        Some(Token::For)
    } else if w.len() == 2 && w[0] == 'i' && w[1] == 'n' {
        Some(Token::In)
    } else if w.len() == 5 && w[0] == 'w' && w[1] == 'h' && w[2] == 'i' && w[3] == 'l' && w[4] == 'e' {
        Some(Token::While)
    } else if w.len() == 4 && w[0] == 'l' && w[1] == 'o' && w[2] == 'o' && w[3] == 'p' {
        Some(Token::Loop)
    } else if w.len() == 5 && w[0] == 'b' && w[1] == 'r' && w[2] == 'e' && w[3] == 'a' && w[4] == 'k' {
        Some(Token::Break)
    } else if w.len() == 8 && w[0] == 'c' && w[1] == 'o' && w[2] == 'n' && w[3] == 't' && w[4] == 'i' && w[5] == 'n' && w[6] == 'u' && w[7] == 'e' {
        Some(Token::Continue)
    } else if w.len() == 6 && w[0] == 'r' && w[1] == 'e' && w[2] == 't' && w[3] == 'u' && w[4] == 'r' && w[5] == 'n' {
        Some(Token::Return)
    } else if w.len() == 5 && w[0] == 'y' && w[1] == 'i' && w[2] == 'e' && w[3] == 'l' && w[4] == 'd' {
        Some(Token::Yield)
    } else if w.len() == 4 && w[0] == 'b' && w[1] == 'i' && w[2] == 'n' && w[3] == 'd' {
        Some(Token::Bind)
    } else if w.len() == 2 && w[0] == 'i' && w[1] == 's' {
        Some(Token::Is)
    } else if w.len() == 2 && w[0] == 'a' && w[1] == 's' {
        Some(Token::As)
    } else if w.len() == 5 && w[0] == 'w' && w[1] == 'h' && w[2] == 'e' && w[3] == 'r' && w[4] == 'e' {
        Some(Token::Where)
    } else if w.len() == 3 && w[0] == 't' && w[1] == 'r' && w[2] == 'y' {
        Some(Token::Try)
    } else if w.len() == 5 && w[0] == 'a' && w[1] == 's' && w[2] == 'y' && w[3] == 'n' && w[4] == 'c' {
        Some(Token::Async)
    } else if w.len() == 5 && w[0] == 'a' && w[1] == 'w' && w[2] == 'a' && w[3] == 'i' && w[4] == 't' {
        Some(Token::Await)
    } else if w.len() == 3 && w[0] == 'g' && w[1] == 'e' && w[2] == 'n' {
        Some(Token::Gen)
    } else if w.len() == 8 && w[0] == 's' && w[1] == 'n' && w[2] == 'a' && w[3] == 'p' && w[4] == 's' && w[5] == 'h' && w[6] == 'o' && w[7] == 't' {
        Some(Token::Snapshot)
    } else if w.len() == 3 && w[0] == 'r' && w[1] == 'e' && w[2] == 'f' {
        Some(Token::Ref)
    } else if w.len() == 7 && w[0] == 'p' && w[1] == 'e' && w[2] == 'r' && w[3] == 's' && w[4] == 'i' && w[5] == 's' && w[6] == 't' {
        Some(Token::Persist)
    } else if w.len() == 5 && w[0] == 'p' && w[1] == 'r' && w[2] == 'o' && w[3] == 't' && w[4] == 'o' {
        Some(Token::Proto)
    } else if w.len() == 6 && w[0] == 'u' && w[1] == 'n' && w[2] == 's' && w[3] == 'a' && w[4] == 'f' && w[5] == 'e' {
        Some(Token::Unsafe)
    } else if w.len() == 6 && w[0] == 'v' && w[1] == 'e' && w[2] == 'r' && w[3] == 'i' && w[4] == 'f' && w[5] == 'y' {
        Some(Token::Verify)
    } else if w.len() == 13 && w[0] == 'd' && w[1] == 'e' && w[2] == 't' && w[3] == 'e' && w[4] == 'r' && w[5] == 'm' && w[6] == 'i' && w[7] == 'n' && w[8] == 'i' && w[9] == 's' && w[10] == 't' && w[11] == 'i' && w[12] == 'c' {
        Some(Token::Deterministic)
    } else if w.len() == 13 && w[0] == 'p' && w[1] == 'r' && w[2] == 'o' && w[3] == 'b' && w[4] == 'a' && w[5] == 'b' && w[6] == 'i' && w[7] == 'l' && w[8] == 'i' && w[9] == 's' && w[10] == 't' && w[11] == 'i' && w[12] == 'c' {
        Some(Token::Probabilistic)
    } else if w.len() == 10 && w[0] == 'c' && w[1] == 'h' && w[2] == 'e' && w[3] == 'c' && w[4] == 'k' && w[5] == 'p' && w[6] == 'o' && w[7] == 'i' && w[8] == 'n' && w[9] == 't' {
        Some(Token::Checkpoint)
    } else if w.len() == 5 && w[0] == 'a' && w[1] == 'c' && w[2] == 't' && w[3] == 'o' && w[4] == 'r' {
        Some(Token::Actor)
    } else if w.len() == 5 && w[0] == 'm' && w[1] == 'o' && w[2] == 'd' && w[3] == 'e' && w[4] == 'l' {
        Some(Token::Model)
    } else if w.len() == 6 && w[0] == 't' && w[1] == 'e' && w[2] == 'n' && w[3] == 's' && w[4] == 'o' && w[5] == 'r' {
        Some(Token::Tensor)
    } else if w.len() == 4 && w[0] == 'S' && w[1] == 'e' && w[2] == 'l' && w[3] == 'f' {
        Some(Token::SelfType)
    } else if w.len() == 4 && w[0] == 's' && w[1] == 'e' && w[2] == 'l' && w[3] == 'f' {
        Some(Token::SelfLower)
    } else if w.len() == 4 && w[0] == 't' && w[1] == 'r' && w[2] == 'u' && w[3] == 'e' {
        Some(Token::True)
    } else if w.len() == 5 && w[0] == 'f' && w[1] == 'a' && w[2] == 'l' && w[3] == 's' && w[4] == 'e' {
        Some(Token::False)
    } else if w.len() == 3 && w[0] == 'n' && w[1] == 'i' && w[2] == 'l' {
        Some(Token::Nil)
    } else if w.len() == 5 && w[0] == 'b' && w[1] == 'y' && w[2] == 't' && w[3] == 'e' && w[4] == 's' {
        Some(Token::Bytes)
    } else if w.len() == 2 && w[0] == 'i' && w[1] == '8' {
        Some(Token::I8)
    } else if w.len() == 3 && w[0] == 'i' && w[1] == '1' && w[2] == '6' {
        Some(Token::I16)
    } else if w.len() == 3 && w[0] == 'i' && w[1] == '3' && w[2] == '2' {
        Some(Token::I32)
    } else if w.len() == 3 && w[0] == 'i' && w[1] == '6' && w[2] == '4' {
        Some(Token::I64)
    } else if w.len() == 4 && w[0] == 'i' && w[1] == '1' && w[2] == '2' && w[3] == '8' {
        Some(Token::I128)
    } else if w.len() == 2 && w[0] == 'u' && w[1] == '8' {
        Some(Token::U8)
    } else if w.len() == 3 && w[0] == 'u' && w[1] == '1' && w[2] == '6' {
        Some(Token::U16)
    } else if w.len() == 3 && w[0] == 'u' && w[1] == '3' && w[2] == '2' {
        Some(Token::U32)
    } else if w.len() == 3 && w[0] == 'u' && w[1] == '6' && w[2] == '4' {
        Some(Token::U64)
    } else if w.len() == 4 && w[0] == 'u' && w[1] == '1' && w[2] == '2' && w[3] == '8' {
        Some(Token::U128)
    } else if w.len() == 3 && w[0] == 'f' && w[1] == '1' && w[2] == '6' {
        Some(Token::F16)
    } else if w.len() == 3 && w[0] == 'f' && w[1] == '3' && w[2] == '2' {
        Some(Token::F32)
    } else if w.len() == 3 && w[0] == 'f' && w[1] == '6' && w[2] == '4' {
        Some(Token::F64)
    } else if w.len() == 4 && w[0] == 'b' && w[1] == 'o' && w[2] == 'o' && w[3] == 'l' {
        Some(Token::Bool)
    } else if w.len() == 4 && w[0] == 'c' && w[1] == 'h' && w[2] == 'a' && w[3] == 'r' {
        Some(Token::Char)
    } else if w.len() == 3 && w[0] == 's' && w[1] == 't' && w[2] == 'r' {
        Some(Token::Str)
    } else if w.len() == 5 && w[0] == 'n' && w[1] == 'e' && w[2] == 'v' && w[3] == 'e' && w[4] == 'r' {
        Some(Token::Never)
    } else {
        None
    }
}

/// How each keyword token is spelled in source text; the other tokens have no fixed
/// keyword spelling.
pub open spec fn keyword_spelling(t: Token) -> Option<Seq<char>> {
    match t {
        Token::Fn => Some("fn"@),
        Token::Let => Some("let"@),
        Token::Var => Some("var"@),
        Token::Mut => Some("mut"@),
        Token::Const => Some("const"@),
        Token::Struct => Some("struct"@),
        Token::Enum => Some("enum"@),
        Token::Interface => Some("interface"@),
        Token::Implement => Some("implement"@),
        Token::TypeKw => Some("type"@),
        Token::Mod => Some("mod"@),
        Token::Use => Some("use"@),
        Token::Pub => Some("pub"@),
        Token::Priv => Some("priv"@),
        Token::Extern => Some("extern"@),
        Token::Crate => Some("crate"@),
        Token::Super => Some("super"@),
        Token::Here => Some("here"@),
        Token::If => Some("if"@),
        Token::Else => Some("else"@),
        Token::Lack => Some("lack"@),
        Token::Match => Some("match"@),
        Token::For => Some("for"@),
        Token::In => Some("in"@),
        Token::While => Some("while"@),
        Token::Loop => Some("loop"@),
        Token::Break => Some("break"@),
        Token::Continue => Some("continue"@),
        Token::Return => Some("return"@),
        Token::Yield => Some("yield"@),
        Token::Bind => Some("bind"@),
        Token::Is => Some("is"@),
        Token::As => Some("as"@),
        Token::Where => Some("where"@),
        Token::Try => Some("try"@),
        Token::Async => Some("async"@),
        Token::Await => Some("await"@),
        Token::Gen => Some("gen"@),
        Token::Snapshot => Some("snapshot"@),
        Token::Ref => Some("ref"@),
        Token::Persist => Some("persist"@),
        Token::Proto => Some("proto"@),
        Token::Unsafe => Some("unsafe"@),
        Token::Verify => Some("verify"@),
        Token::Deterministic => Some("deterministic"@),
        Token::Probabilistic => Some("probabilistic"@),
        Token::Checkpoint => Some("checkpoint"@),
        Token::Actor => Some("actor"@),
        Token::Model => Some("model"@),
        Token::Tensor => Some("tensor"@),
        Token::SelfType => Some("Self"@),
        Token::SelfLower => Some("self"@),
        Token::True => Some("true"@),
        Token::False => Some("false"@),
        Token::Nil => Some("nil"@),
        Token::Bytes => Some("bytes"@),
        Token::I8 => Some("i8"@),
        Token::I16 => Some("i16"@),
        Token::I32 => Some("i32"@),
        Token::I64 => Some("i64"@),
        Token::I128 => Some("i128"@),
        Token::U8 => Some("u8"@),
        Token::U16 => Some("u16"@),
        Token::U32 => Some("u32"@),
        Token::U64 => Some("u64"@),
        Token::U128 => Some("u128"@),
        Token::F16 => Some("f16"@),
        Token::F32 => Some("f32"@),
        Token::F64 => Some("f64"@),
        Token::Bool => Some("bool"@),
        Token::Char => Some("char"@),
        Token::Str => Some("str"@),
        Token::Never => Some("never"@),
        _ => None,
    }
}

/// How each operator and delimiter token is spelled in source text; the other tokens have
/// no such spelling.
pub open spec fn punct_spelling(t: Token) -> Option<Seq<char>> {
    match t {
        Token::Plus => Some("+"@),
        Token::Minus => Some("-"@),
        Token::Star => Some("*"@),
        Token::Slash => Some("/"@),
        Token::Percent => Some("%"@),
        Token::Eq => Some("="@),
        Token::EqEq => Some("=="@),
        Token::PlusEq => Some("+="@),
        Token::MinusEq => Some("-="@),
        Token::StarEq => Some("*="@),
        Token::SlashEq => Some("/="@),
        Token::PercentEq => Some("%="@),
        Token::Neq => Some("!="@),
        Token::Lt => Some("<"@),
        Token::Gt => Some(">"@),
        Token::Le => Some("<="@),
        Token::Ge => Some(">="@),
        Token::And => Some("&&"@),
        Token::Or => Some("||"@),
        Token::Bang => Some("!"@),
        Token::Pipe => Some("|"@),
        Token::Amp => Some("&"@),
        Token::Question => Some("?"@),
        Token::Arrow => Some("->"@),
        Token::FatArrow => Some("=>"@),
        Token::Range => Some(".."@),
        Token::PathSep => Some("::"@),
        Token::LBrace => Some("{"@),
        Token::RBrace => Some("}"@),
        Token::LBracket => Some("["@),
        Token::RBracket => Some("]"@),
        Token::LParen => Some("("@),
        Token::RParen => Some(")"@),
        Token::Colon => Some(":"@),
        Token::Semicolon => Some(";"@),
        Token::Comma => Some(","@),
        Token::Dot => Some("."@),
        Token::Pound => Some("#"@),
        _ => None,
    }
}

/// The keyword table reads both ways: each keyword spelling lexes as its own token, and a
/// word that lexes as a keyword token is that token's spelling.
pub proof fn lemma_keyword_spelling_round_trip(t: Token, w: Seq<char>)
    ensures
        keyword_spelling(t) matches Some(s) ==> keyword_of(s) == Some(t),
        keyword_of(w) == Some(t) ==> keyword_spelling(t) == Some(w),
{
    match t {
        Token::Fn => {
            reveal_strlit("fn");
            if keyword_of(w) == Some(t) {
                assert(w =~= "fn"@);
            }
        },
        Token::Let => {
            reveal_strlit("let");
            if keyword_of(w) == Some(t) {
                assert(w =~= "let"@);
            }
        },
        Token::Var => {
            reveal_strlit("var");
            if keyword_of(w) == Some(t) {
                assert(w =~= "var"@);
            }
        },
        Token::Mut => {
            reveal_strlit("mut");
            if keyword_of(w) == Some(t) {
                assert(w =~= "mut"@);
            }
        },
        Token::Const => {
            reveal_strlit("const");
            if keyword_of(w) == Some(t) {
                assert(w =~= "const"@);
            }
        },
        Token::Struct => {
            reveal_strlit("struct");
            if keyword_of(w) == Some(t) {
                assert(w =~= "struct"@);
            }
        },
        Token::Enum => {
            reveal_strlit("enum");
            if keyword_of(w) == Some(t) {
                assert(w =~= "enum"@);
            }
        },
        Token::Interface => {
            reveal_strlit("interface");
            if keyword_of(w) == Some(t) {
                assert(w =~= "interface"@);
            }
        },
        Token::Implement => {
            reveal_strlit("implement");
            if keyword_of(w) == Some(t) {
                assert(w =~= "implement"@);
            }
        },
        Token::TypeKw => {
            reveal_strlit("type");
            if keyword_of(w) == Some(t) {
                assert(w =~= "type"@);
            }
        },
        Token::Mod => {
            reveal_strlit("mod");
            if keyword_of(w) == Some(t) {
                assert(w =~= "mod"@);
            }
        },
        Token::Use => {
            reveal_strlit("use");
            if keyword_of(w) == Some(t) {
                assert(w =~= "use"@);
            }
        },
        Token::Pub => {
            reveal_strlit("pub");
            if keyword_of(w) == Some(t) {
                assert(w =~= "pub"@);
            }
        },
        Token::Priv => {
            reveal_strlit("priv");
            if keyword_of(w) == Some(t) {
                assert(w =~= "priv"@);
            }
        },
        Token::Extern => {
            reveal_strlit("extern");
            if keyword_of(w) == Some(t) {
                assert(w =~= "extern"@);
            }
        },
        Token::Crate => {
            reveal_strlit("crate");
            if keyword_of(w) == Some(t) {
                assert(w =~= "crate"@);
            }
        },
        Token::Super => {
            reveal_strlit("super");
            if keyword_of(w) == Some(t) {
                assert(w =~= "super"@);
            }
        },
        Token::Here => {
            reveal_strlit("here");
            if keyword_of(w) == Some(t) {
                assert(w =~= "here"@);
            }
        },
        Token::If => {
            reveal_strlit("if");
            if keyword_of(w) == Some(t) {
                assert(w =~= "if"@);
            }
        },
        Token::Else => {
            reveal_strlit("else");
            if keyword_of(w) == Some(t) {
                assert(w =~= "else"@);
            }
        },
        Token::Lack => {
            reveal_strlit("lack");
            if keyword_of(w) == Some(t) {
                assert(w =~= "lack"@);
            }
        },
        Token::Match => {
            reveal_strlit("match");
            if keyword_of(w) == Some(t) {
                assert(w =~= "match"@);
            }
        },
        Token::For => {
            reveal_strlit("for");
            if keyword_of(w) == Some(t) {
                assert(w =~= "for"@);
            }
        },
        Token::In => {
            reveal_strlit("in");
            if keyword_of(w) == Some(t) {
                assert(w =~= "in"@);
            }
        },
        Token::While => {
            reveal_strlit("while");
            if keyword_of(w) == Some(t) {
                assert(w =~= "while"@);
            }
        },
        Token::Loop => {
            reveal_strlit("loop");
            if keyword_of(w) == Some(t) {
                assert(w =~= "loop"@);
            }
        },
        Token::Break => {
            reveal_strlit("break");
            if keyword_of(w) == Some(t) {
                assert(w =~= "break"@);
            }
        },
        Token::Continue => {
            reveal_strlit("continue");
            if keyword_of(w) == Some(t) {
                assert(w =~= "continue"@);
            }
        },
        Token::Return => {
            reveal_strlit("return");
            if keyword_of(w) == Some(t) {
                assert(w =~= "return"@);
            }
        },
        Token::Yield => {
            reveal_strlit("yield");
            if keyword_of(w) == Some(t) {
                assert(w =~= "yield"@);
            }
        },
        Token::Bind => {
            reveal_strlit("bind");
            if keyword_of(w) == Some(t) {
                assert(w =~= "bind"@);
            }
        },
        Token::Is => {
            reveal_strlit("is");
            if keyword_of(w) == Some(t) {
                assert(w =~= "is"@);
            }
        },
        Token::As => {
            reveal_strlit("as");
            if keyword_of(w) == Some(t) {
                assert(w =~= "as"@);
            }
        },
        Token::Where => {
            reveal_strlit("where");
            if keyword_of(w) == Some(t) {
                assert(w =~= "where"@);
            }
        },
        Token::Try => {
            reveal_strlit("try");
            if keyword_of(w) == Some(t) {
                assert(w =~= "try"@);
            }
        },
        Token::Async => {
            reveal_strlit("async");
            if keyword_of(w) == Some(t) {
                assert(w =~= "async"@);
            }
        },
        Token::Await => {
            reveal_strlit("await");
            if keyword_of(w) == Some(t) {
                assert(w =~= "await"@);
            }
        },
        Token::Gen => {
            reveal_strlit("gen");
            if keyword_of(w) == Some(t) {
                assert(w =~= "gen"@);
            }
        },
        Token::Snapshot => {
            reveal_strlit("snapshot");
            if keyword_of(w) == Some(t) {
                assert(w =~= "snapshot"@);
            }
        },
        Token::Ref => {
            reveal_strlit("ref");
            if keyword_of(w) == Some(t) {
                assert(w =~= "ref"@);
            }
        },
        Token::Persist => {
            reveal_strlit("persist");
            if keyword_of(w) == Some(t) {
                assert(w =~= "persist"@);
            }
        },
        Token::Proto => {
            reveal_strlit("proto");
            if keyword_of(w) == Some(t) {
                assert(w =~= "proto"@);
            }
        },
        Token::Unsafe => {
            reveal_strlit("unsafe");
            if keyword_of(w) == Some(t) {
                assert(w =~= "unsafe"@);
            }
        },
        Token::Verify => {
            reveal_strlit("verify");
            if keyword_of(w) == Some(t) {
                assert(w =~= "verify"@);
            }
        },
        Token::Deterministic => {
            reveal_strlit("deterministic");
            if keyword_of(w) == Some(t) {
                assert(w =~= "deterministic"@);
            }
        },
        Token::Probabilistic => {
            reveal_strlit("probabilistic");
            if keyword_of(w) == Some(t) {
                assert(w =~= "probabilistic"@);
            }
        },
        Token::Checkpoint => {
            reveal_strlit("checkpoint");
            if keyword_of(w) == Some(t) {
                assert(w =~= "checkpoint"@);
            }
        },
        Token::Actor => {
            reveal_strlit("actor");
            if keyword_of(w) == Some(t) {
                assert(w =~= "actor"@);
            }
        },
        Token::Model => {
            reveal_strlit("model");
            if keyword_of(w) == Some(t) {
                assert(w =~= "model"@);
            }
        },
        Token::Tensor => {
            reveal_strlit("tensor");
            if keyword_of(w) == Some(t) {
                assert(w =~= "tensor"@);
            }
        },
        Token::SelfType => {
            reveal_strlit("Self");
            if keyword_of(w) == Some(t) {
                assert(w =~= "Self"@);
            }
        },
        Token::SelfLower => {
            reveal_strlit("self");
            if keyword_of(w) == Some(t) {
                assert(w =~= "self"@);
            }
        },
        Token::True => {
            reveal_strlit("true");
            if keyword_of(w) == Some(t) {
                assert(w =~= "true"@);
            }
        },
        Token::False => {
            reveal_strlit("false");
            if keyword_of(w) == Some(t) {
                assert(w =~= "false"@);
            }
        },
        Token::Nil => {
            reveal_strlit("nil");
            if keyword_of(w) == Some(t) {
                assert(w =~= "nil"@);
            }
        },
        Token::Bytes => {
            reveal_strlit("bytes");
            if keyword_of(w) == Some(t) {
                assert(w =~= "bytes"@);
            }
        },
        Token::I8 => {
            reveal_strlit("i8");
            if keyword_of(w) == Some(t) {
                assert(w =~= "i8"@);
            }
        },
        Token::I16 => {
            reveal_strlit("i16");
            if keyword_of(w) == Some(t) {
                assert(w =~= "i16"@);
            }
        },
        Token::I32 => {
            reveal_strlit("i32");
            if keyword_of(w) == Some(t) {
                assert(w =~= "i32"@);
            }
        },
        Token::I64 => {
            reveal_strlit("i64");
            if keyword_of(w) == Some(t) {
                assert(w =~= "i64"@);
            }
        },
        Token::I128 => {
            reveal_strlit("i128");
            if keyword_of(w) == Some(t) {
                assert(w =~= "i128"@);
            }
        },
        Token::U8 => {
            reveal_strlit("u8");
            if keyword_of(w) == Some(t) {
                assert(w =~= "u8"@);
            }
        },
        Token::U16 => {
            reveal_strlit("u16");
            if keyword_of(w) == Some(t) {
                assert(w =~= "u16"@);
            }
        },
        Token::U32 => {
            reveal_strlit("u32");
            if keyword_of(w) == Some(t) {
                assert(w =~= "u32"@);
            }
        },
        Token::U64 => {
            reveal_strlit("u64");
            if keyword_of(w) == Some(t) {
                assert(w =~= "u64"@);
            }
        },
        Token::U128 => {
            reveal_strlit("u128");
            if keyword_of(w) == Some(t) {
                assert(w =~= "u128"@);
            }
        },
        Token::F16 => {
            reveal_strlit("f16");
            if keyword_of(w) == Some(t) {
                assert(w =~= "f16"@);
            }
        },
        Token::F32 => {
            reveal_strlit("f32");
            if keyword_of(w) == Some(t) {
                assert(w =~= "f32"@);
            }
        },
        Token::F64 => {
            reveal_strlit("f64");
            if keyword_of(w) == Some(t) {
                assert(w =~= "f64"@);
            }
        },
        Token::Bool => {
            reveal_strlit("bool");
            if keyword_of(w) == Some(t) {
                assert(w =~= "bool"@);
            }
        },
        Token::Char => {
            reveal_strlit("char");
            if keyword_of(w) == Some(t) {
                assert(w =~= "char"@);
            }
        },
        Token::Str => {
            reveal_strlit("str");
            if keyword_of(w) == Some(t) {
                assert(w =~= "str"@);
            }
        },
        Token::Never => {
            reveal_strlit("never");
            if keyword_of(w) == Some(t) {
                assert(w =~= "never"@);
            }
        },
        _ => {},
    }
}

/// Looks up the keyword spelled by `chars[start..end]`.
pub fn lookup_keyword(chars: &Vec<char>, start: usize, end: usize) -> (r: Option<Token>)
    requires
        start <= end <= chars.len(),
    ensures
        r == keyword_of(chars@.subrange(start as int, end as int)),
{
    let ghost w = chars@.subrange(start as int, end as int);
    let n = end - start;
    if n == 2 && chars[start + 0] == 'f' && chars[start + 1] == 'n' {
        Some(Token::Fn)
    } else if n == 3 && chars[start + 0] == 'l' && chars[start + 1] == 'e' && chars[start + 2] == 't' {
        Some(Token::Let)
    } else if n == 3 && chars[start + 0] == 'v' && chars[start + 1] == 'a' && chars[start + 2] == 'r' {
        Some(Token::Var)
    } else if n == 3 && chars[start + 0] == 'm' && chars[start + 1] == 'u' && chars[start + 2] == 't' {
        Some(Token::Mut)
    } else if n == 5 && chars[start + 0] == 'c' && chars[start + 1] == 'o' && chars[start + 2] == 'n' && chars[start + 3] == 's' && chars[start + 4] == 't' {
        Some(Token::Const)
    } else if n == 6 && chars[start + 0] == 's' && chars[start + 1] == 't' && chars[start + 2] == 'r' && chars[start + 3] == 'u' && chars[start + 4] == 'c' && chars[start + 5] == 't' {
        Some(Token::Struct)
    } else if n == 4 && chars[start + 0] == 'e' && chars[start + 1] == 'n' && chars[start + 2] == 'u' && chars[start + 3] == 'm' {
        Some(Token::Enum)
    } else if n == 9 && chars[start + 0] == 'i' && chars[start + 1] == 'n' && chars[start + 2] == 't' && chars[start + 3] == 'e' && chars[start + 4] == 'r' && chars[start + 5] == 'f' && chars[start + 6] == 'a' && chars[start + 7] == 'c' && chars[start + 8] == 'e' {
        Some(Token::Interface)
    } else if n == 9 && chars[start + 0] == 'i' && chars[start + 1] == 'm' && chars[start + 2] == 'p' && chars[start + 3] == 'l' && chars[start + 4] == 'e' && chars[start + 5] == 'm' && chars[start + 6] == 'e' && chars[start + 7] == 'n' && chars[start + 8] == 't' {
        Some(Token::Implement)
    } else if n == 4 && chars[start + 0] == 't' && chars[start + 1] == 'y' && chars[start + 2] == 'p' && chars[start + 3] == 'e' {
        Some(Token::TypeKw)
    } else if n == 3 && chars[start + 0] == 'm' && chars[start + 1] == 'o' && chars[start + 2] == 'd' {
        Some(Token::Mod)
    } else if n == 3 && chars[start + 0] == 'u' && chars[start + 1] == 's' && chars[start + 2] == 'e' {
        Some(Token::Use)
    } else if n == 3 && chars[start + 0] == 'p' && chars[start + 1] == 'u' && chars[start + 2] == 'b' {
        Some(Token::Pub)
    } else if n == 4 && chars[start + 0] == 'p' && chars[start + 1] == 'r' && chars[start + 2] == 'i' && chars[start + 3] == 'v' {
        Some(Token::Priv)
    } else if n == 6 && chars[start + 0] == 'e' && chars[start + 1] == 'x' && chars[start + 2] == 't' && chars[start + 3] == 'e' && chars[start + 4] == 'r' && chars[start + 5] == 'n' {
        Some(Token::Extern)
    } else if n == 5 && chars[start + 0] == 'c' && chars[start + 1] == 'r' && chars[start + 2] == 'a' && chars[start + 3] == 't' && chars[start + 4] == 'e' {
        Some(Token::Crate)
    } else if n == 5 && chars[start + 0] == 's' && chars[start + 1] == 'u' && chars[start + 2] == 'p' && chars[start + 3] == 'e' && chars[start + 4] == 'r' {
        Some(Token::Super)
    } else if n == 4 && chars[start + 0] == 'h' && chars[start + 1] == 'e' && chars[start + 2] == 'r' && chars[start + 3] == 'e' {
        Some(Token::Here)
    } else if n == 2 && chars[start + 0] == 'i' && chars[start + 1] == 'f' {
        Some(Token::If)
    } else if n == 4 && chars[start + 0] == 'e' && chars[start + 1] == 'l' && chars[start + 2] == 's' && chars[start + 3] == 'e' {
        Some(Token::Else)
    } else if n == 4 && chars[start + 0] == 'l' && chars[start + 1] == 'a' && chars[start + 2] == 'c' && chars[start + 3] == 'k' {
        Some(Token::Lack)
    } else if n == 5 && chars[start + 0] == 'm' && chars[start + 1] == 'a' && chars[start + 2] == 't' && chars[start + 3] == 'c' && chars[start + 4] == 'h' {
        Some(Token::Match)
    } else if n == 3 && chars[start + 0] == 'f' && chars[start + 1] == 'o' && chars[start + 2] == 'r' {
        Some(Token::For)
    } else if n == 2 && chars[start + 0] == 'i' && chars[start + 1] == 'n' {
        Some(Token::In)
    } else if n == 5 && chars[start + 0] == 'w' && chars[start + 1] == 'h' && chars[start + 2] == 'i' && chars[start + 3] == 'l' && chars[start + 4] == 'e' {
        Some(Token::While)
    } else if n == 4 && chars[start + 0] == 'l' && chars[start + 1] == 'o' && chars[start + 2] == 'o' && chars[start + 3] == 'p' {
        Some(Token::Loop)
    } else if n == 5 && chars[start + 0] == 'b' && chars[start + 1] == 'r' && chars[start + 2] == 'e' && chars[start + 3] == 'a' && chars[start + 4] == 'k' {
        Some(Token::Break)
    } else if n == 8 && chars[start + 0] == 'c' && chars[start + 1] == 'o' && chars[start + 2] == 'n' && chars[start + 3] == 't' && chars[start + 4] == 'i' && chars[start + 5] == 'n' && chars[start + 6] == 'u' && chars[start + 7] == 'e' {
        Some(Token::Continue)
    } else if n == 6 && chars[start + 0] == 'r' && chars[start + 1] == 'e' && chars[start + 2] == 't' && chars[start + 3] == 'u' && chars[start + 4] == 'r' && chars[start + 5] == 'n' {
        Some(Token::Return)
    } else if n == 5 && chars[start + 0] == 'y' && chars[start + 1] == 'i' && chars[start + 2] == 'e' && chars[start + 3] == 'l' && chars[start + 4] == 'd' {
        Some(Token::Yield)
    } else if n == 4 && chars[start + 0] == 'b' && chars[start + 1] == 'i' && chars[start + 2] == 'n' && chars[start + 3] == 'd' {
        Some(Token::Bind)
    } else if n == 2 && chars[start + 0] == 'i' && chars[start + 1] == 's' {
        Some(Token::Is)
    } else if n == 2 && chars[start + 0] == 'a' && chars[start + 1] == 's' {
        Some(Token::As)
    } else if n == 5 && chars[start + 0] == 'w' && chars[start + 1] == 'h' && chars[start + 2] == 'e' && chars[start + 3] == 'r' && chars[start + 4] == 'e' {
        Some(Token::Where)
    } else if n == 3 && chars[start + 0] == 't' && chars[start + 1] == 'r' && chars[start + 2] == 'y' {
        Some(Token::Try)
    } else if n == 5 && chars[start + 0] == 'a' && chars[start + 1] == 's' && chars[start + 2] == 'y' && chars[start + 3] == 'n' && chars[start + 4] == 'c' {
        Some(Token::Async)
    } else if n == 5 && chars[start + 0] == 'a' && chars[start + 1] == 'w' && chars[start + 2] == 'a' && chars[start + 3] == 'i' && chars[start + 4] == 't' {
        Some(Token::Await)
    } else if n == 3 && chars[start + 0] == 'g' && chars[start + 1] == 'e' && chars[start + 2] == 'n' {
        Some(Token::Gen)
    } else if n == 8 && chars[start + 0] == 's' && chars[start + 1] == 'n' && chars[start + 2] == 'a' && chars[start + 3] == 'p' && chars[start + 4] == 's' && chars[start + 5] == 'h' && chars[start + 6] == 'o' && chars[start + 7] == 't' {
        Some(Token::Snapshot)
    } else if n == 3 && chars[start + 0] == 'r' && chars[start + 1] == 'e' && chars[start + 2] == 'f' {
        Some(Token::Ref)
    } else if n == 7 && chars[start + 0] == 'p' && chars[start + 1] == 'e' && chars[start + 2] == 'r' && chars[start + 3] == 's' && chars[start + 4] == 'i' && chars[start + 5] == 's' && chars[start + 6] == 't' {
        Some(Token::Persist)
    } else if n == 5 && chars[start + 0] == 'p' && chars[start + 1] == 'r' && chars[start + 2] == 'o' && chars[start + 3] == 't' && chars[start + 4] == 'o' {
        Some(Token::Proto)
    } else if n == 6 && chars[start + 0] == 'u' && chars[start + 1] == 'n' && chars[start + 2] == 's' && chars[start + 3] == 'a' && chars[start + 4] == 'f' && chars[start + 5] == 'e' {
        Some(Token::Unsafe)
    } else if n == 6 && chars[start + 0] == 'v' && chars[start + 1] == 'e' && chars[start + 2] == 'r' && chars[start + 3] == 'i' && chars[start + 4] == 'f' && chars[start + 5] == 'y' {
        Some(Token::Verify)
    } else if n == 13 && chars[start + 0] == 'd' && chars[start + 1] == 'e' && chars[start + 2] == 't' && chars[start + 3] == 'e' && chars[start + 4] == 'r' && chars[start + 5] == 'm' && chars[start + 6] == 'i' && chars[start + 7] == 'n' && chars[start + 8] == 'i' && chars[start + 9] == 's' && chars[start + 10] == 't' && chars[start + 11] == 'i' && chars[start + 12] == 'c' {
        Some(Token::Deterministic)
    } else if n == 13 && chars[start + 0] == 'p' && chars[start + 1] == 'r' && chars[start + 2] == 'o' && chars[start + 3] == 'b' && chars[start + 4] == 'a' && chars[start + 5] == 'b' && chars[start + 6] == 'i' && chars[start + 7] == 'l' && chars[start + 8] == 'i' && chars[start + 9] == 's' && chars[start + 10] == 't' && chars[start + 11] == 'i' && chars[start + 12] == 'c' {
        Some(Token::Probabilistic)
    } else if n == 10 && chars[start + 0] == 'c' && chars[start + 1] == 'h' && chars[start + 2] == 'e' && chars[start + 3] == 'c' && chars[start + 4] == 'k' && chars[start + 5] == 'p' && chars[start + 6] == 'o' && chars[start + 7] == 'i' && chars[start + 8] == 'n' && chars[start + 9] == 't' {
        Some(Token::Checkpoint)
    } else if n == 5 && chars[start + 0] == 'a' && chars[start + 1] == 'c' && chars[start + 2] == 't' && chars[start + 3] == 'o' && chars[start + 4] == 'r' {
        Some(Token::Actor)
    } else if n == 5 && chars[start + 0] == 'm' && chars[start + 1] == 'o' && chars[start + 2] == 'd' && chars[start + 3] == 'e' && chars[start + 4] == 'l' {
        Some(Token::Model)
    } else if n == 6 && chars[start + 0] == 't' && chars[start + 1] == 'e' && chars[start + 2] == 'n' && chars[start + 3] == 's' && chars[start + 4] == 'o' && chars[start + 5] == 'r' {
        Some(Token::Tensor)
    } else if n == 4 && chars[start + 0] == 'S' && chars[start + 1] == 'e' && chars[start + 2] == 'l' && chars[start + 3] == 'f' {
        Some(Token::SelfType)
    } else if n == 4 && chars[start + 0] == 's' && chars[start + 1] == 'e' && chars[start + 2] == 'l' && chars[start + 3] == 'f' {
        Some(Token::SelfLower)
    } else if n == 4 && chars[start + 0] == 't' && chars[start + 1] == 'r' && chars[start + 2] == 'u' && chars[start + 3] == 'e' {
        Some(Token::True)
    } else if n == 5 && chars[start + 0] == 'f' && chars[start + 1] == 'a' && chars[start + 2] == 'l' && chars[start + 3] == 's' && chars[start + 4] == 'e' {
        Some(Token::False)
    } else if n == 3 && chars[start + 0] == 'n' && chars[start + 1] == 'i' && chars[start + 2] == 'l' {
        Some(Token::Nil)
    } else if n == 5 && chars[start + 0] == 'b' && chars[start + 1] == 'y' && chars[start + 2] == 't' && chars[start + 3] == 'e' && chars[start + 4] == 's' {
        Some(Token::Bytes)
    } else if n == 2 && chars[start + 0] == 'i' && chars[start + 1] == '8' {
        Some(Token::I8)
    } else if n == 3 && chars[start + 0] == 'i' && chars[start + 1] == '1' && chars[start + 2] == '6' {
        Some(Token::I16)
    } else if n == 3 && chars[start + 0] == 'i' && chars[start + 1] == '3' && chars[start + 2] == '2' {
        Some(Token::I32)
    } else if n == 3 && chars[start + 0] == 'i' && chars[start + 1] == '6' && chars[start + 2] == '4' {
        Some(Token::I64)
    } else if n == 4 && chars[start + 0] == 'i' && chars[start + 1] == '1' && chars[start + 2] == '2' && chars[start + 3] == '8' {
        Some(Token::I128)
    } else if n == 2 && chars[start + 0] == 'u' && chars[start + 1] == '8' {
        Some(Token::U8)
    } else if n == 3 && chars[start + 0] == 'u' && chars[start + 1] == '1' && chars[start + 2] == '6' {
        Some(Token::U16)
    } else if n == 3 && chars[start + 0] == 'u' && chars[start + 1] == '3' && chars[start + 2] == '2' {
        Some(Token::U32)
    } else if n == 3 && chars[start + 0] == 'u' && chars[start + 1] == '6' && chars[start + 2] == '4' {
        Some(Token::U64)
    } else if n == 4 && chars[start + 0] == 'u' && chars[start + 1] == '1' && chars[start + 2] == '2' && chars[start + 3] == '8' {
        Some(Token::U128)
    } else if n == 3 && chars[start + 0] == 'f' && chars[start + 1] == '1' && chars[start + 2] == '6' {
        Some(Token::F16)
    } else if n == 3 && chars[start + 0] == 'f' && chars[start + 1] == '3' && chars[start + 2] == '2' {
        Some(Token::F32)
    } else if n == 3 && chars[start + 0] == 'f' && chars[start + 1] == '6' && chars[start + 2] == '4' {
        Some(Token::F64)
    } else if n == 4 && chars[start + 0] == 'b' && chars[start + 1] == 'o' && chars[start + 2] == 'o' && chars[start + 3] == 'l' {
        Some(Token::Bool)
    } else if n == 4 && chars[start + 0] == 'c' && chars[start + 1] == 'h' && chars[start + 2] == 'a' && chars[start + 3] == 'r' {
        Some(Token::Char)
    } else if n == 3 && chars[start + 0] == 's' && chars[start + 1] == 't' && chars[start + 2] == 'r' {
        Some(Token::Str)
    } else if n == 5 && chars[start + 0] == 'n' && chars[start + 1] == 'e' && chars[start + 2] == 'v' && chars[start + 3] == 'e' && chars[start + 4] == 'r' {
        Some(Token::Never)
    } else {
        None
    }
}

} // verus!

verus! {

/// The name of a token kind, as `{:?}` writes it.
pub open spec fn token_name_text(t: Token) -> Seq<char> {
    match t {
        Token::Fn => "Fn"@,
        Token::Let => "Let"@,
        Token::Var => "Var"@,
        Token::Mut => "Mut"@,
        Token::Const => "Const"@,
        Token::Struct => "Struct"@,
        Token::Enum => "Enum"@,
        Token::Interface => "Interface"@,
        Token::Implement => "Implement"@,
        Token::TypeKw => "TypeKw"@,
        Token::Mod => "Mod"@,
        Token::Use => "Use"@,
        Token::Pub => "Pub"@,
        Token::Priv => "Priv"@,
        Token::Extern => "Extern"@,
        Token::Crate => "Crate"@,
        Token::Super => "Super"@,
        Token::Here => "Here"@,
        Token::If => "If"@,
        Token::Else => "Else"@,
        Token::Lack => "Lack"@,
        Token::Match => "Match"@,
        Token::For => "For"@,
        Token::In => "In"@,
        Token::While => "While"@,
        Token::Loop => "Loop"@,
        Token::Break => "Break"@,
        Token::Continue => "Continue"@,
        Token::Return => "Return"@,
        Token::Yield => "Yield"@,
        Token::Bind => "Bind"@,
        Token::Is => "Is"@,
        Token::As => "As"@,
        Token::Where => "Where"@,
        Token::Try => "Try"@,
        Token::Async => "Async"@,
        Token::Await => "Await"@,
        Token::Gen => "Gen"@,
        Token::Snapshot => "Snapshot"@,
        Token::Ref => "Ref"@,
        Token::Persist => "Persist"@,
        Token::Proto => "Proto"@,
        Token::Unsafe => "Unsafe"@,
        Token::Verify => "Verify"@,
        Token::Deterministic => "Deterministic"@,
        Token::Probabilistic => "Probabilistic"@,
        Token::Checkpoint => "Checkpoint"@,
        Token::Actor => "Actor"@,
        Token::Model => "Model"@,
        Token::Tensor => "Tensor"@,
        Token::SelfType => "SelfType"@,
        Token::SelfLower => "SelfLower"@,
        Token::True => "True"@,
        Token::False => "False"@,
        Token::Nil => "Nil"@,
        Token::Bytes => "Bytes"@,
        Token::I8 => "I8"@,
        Token::I16 => "I16"@,
        Token::I32 => "I32"@,
        Token::I64 => "I64"@,
        Token::I128 => "I128"@,
        Token::U8 => "U8"@,
        Token::U16 => "U16"@,
        Token::U32 => "U32"@,
        Token::U64 => "U64"@,
        Token::U128 => "U128"@,
        Token::F16 => "F16"@,
        Token::F32 => "F32"@,
        Token::F64 => "F64"@,
        Token::Bool => "Bool"@,
        Token::Char => "Char"@,
        Token::Str => "Str"@,
        Token::Never => "Never"@,
        Token::Ident => "Ident"@,
        Token::Integer => "Integer"@,
        Token::Float => "Float"@,
        Token::String => "String"@,
        Token::Plus => "Plus"@,
        Token::Minus => "Minus"@,
        Token::Star => "Star"@,
        Token::Slash => "Slash"@,
        Token::Percent => "Percent"@,
        Token::Eq => "Eq"@,
        Token::EqEq => "EqEq"@,
        Token::PlusEq => "PlusEq"@,
        Token::MinusEq => "MinusEq"@,
        Token::StarEq => "StarEq"@,
        Token::SlashEq => "SlashEq"@,
        Token::PercentEq => "PercentEq"@,
        Token::Neq => "Neq"@,
        Token::Lt => "Lt"@,
        Token::Gt => "Gt"@,
        Token::Le => "Le"@,
        Token::Ge => "Ge"@,
        Token::And => "And"@,
        Token::Or => "Or"@,
        Token::Bang => "Bang"@,
        Token::Pipe => "Pipe"@,
        Token::Amp => "Amp"@,
        Token::Question => "Question"@,
        Token::Arrow => "Arrow"@,
        Token::FatArrow => "FatArrow"@,
        Token::Range => "Range"@,
        Token::PathSep => "PathSep"@,
        Token::LBrace => "LBrace"@,
        Token::RBrace => "RBrace"@,
        Token::LBracket => "LBracket"@,
        Token::RBracket => "RBracket"@,
        Token::LParen => "LParen"@,
        Token::RParen => "RParen"@,
        Token::Colon => "Colon"@,
        Token::Semicolon => "Semicolon"@,
        Token::Comma => "Comma"@,
        Token::Dot => "Dot"@,
        Token::Pound => "Pound"@,
        Token::DocComment => "DocComment"@,
        Token::LineComment => "LineComment"@,
        Token::BlockComment => "BlockComment"@,
        Token::Whitespace => "Whitespace"@,
    }
}

/// The name of a token kind, as `{:?}` writes it.
pub fn token_name(t: Token) -> (s: &'static str)
    ensures
        s@ == token_name_text(t),
{
    match t {
        Token::Fn => "Fn",
        Token::Let => "Let",
        Token::Var => "Var",
        Token::Mut => "Mut",
        Token::Const => "Const",
        Token::Struct => "Struct",
        Token::Enum => "Enum",
        Token::Interface => "Interface",
        Token::Implement => "Implement",
        Token::TypeKw => "TypeKw",
        Token::Mod => "Mod",
        Token::Use => "Use",
        Token::Pub => "Pub",
        Token::Priv => "Priv",
        Token::Extern => "Extern",
        Token::Crate => "Crate",
        Token::Super => "Super",
        Token::Here => "Here",
        Token::If => "If",
        Token::Else => "Else",
        Token::Lack => "Lack",
        Token::Match => "Match",
        Token::For => "For",
        Token::In => "In",
        Token::While => "While",
        Token::Loop => "Loop",
        Token::Break => "Break",
        Token::Continue => "Continue",
        Token::Return => "Return",
        Token::Yield => "Yield",
        Token::Bind => "Bind",
        Token::Is => "Is",
        Token::As => "As",
        Token::Where => "Where",
        Token::Try => "Try",
        Token::Async => "Async",
        Token::Await => "Await",
        Token::Gen => "Gen",
        Token::Snapshot => "Snapshot",
        Token::Ref => "Ref",
        Token::Persist => "Persist",
        Token::Proto => "Proto",
        Token::Unsafe => "Unsafe",
        Token::Verify => "Verify",
        Token::Deterministic => "Deterministic",
        Token::Probabilistic => "Probabilistic",
        Token::Checkpoint => "Checkpoint",
        Token::Actor => "Actor",
        Token::Model => "Model",
        Token::Tensor => "Tensor",
        Token::SelfType => "SelfType",
        Token::SelfLower => "SelfLower",
        Token::True => "True",
        Token::False => "False",
        Token::Nil => "Nil",
        Token::Bytes => "Bytes",
        Token::I8 => "I8",
        Token::I16 => "I16",
        Token::I32 => "I32",
        Token::I64 => "I64",
        Token::I128 => "I128",
        Token::U8 => "U8",
        Token::U16 => "U16",
        Token::U32 => "U32",
        Token::U64 => "U64",
        Token::U128 => "U128",
        Token::F16 => "F16",
        Token::F32 => "F32",
        Token::F64 => "F64",
        Token::Bool => "Bool",
        Token::Char => "Char",
        Token::Str => "Str",
        Token::Never => "Never",
        Token::Ident => "Ident",
        Token::Integer => "Integer",
        Token::Float => "Float",
        Token::String => "String",
        Token::Plus => "Plus",
        Token::Minus => "Minus",
        Token::Star => "Star",
        Token::Slash => "Slash",
        Token::Percent => "Percent",
        Token::Eq => "Eq",
        Token::EqEq => "EqEq",
        Token::PlusEq => "PlusEq",
        Token::MinusEq => "MinusEq",
        Token::StarEq => "StarEq",
        Token::SlashEq => "SlashEq",
        Token::PercentEq => "PercentEq",
        Token::Neq => "Neq",
        Token::Lt => "Lt",
        Token::Gt => "Gt",
        Token::Le => "Le",
        Token::Ge => "Ge",
        Token::And => "And",
        Token::Or => "Or",
        Token::Bang => "Bang",
        Token::Pipe => "Pipe",
        Token::Amp => "Amp",
        Token::Question => "Question",
        Token::Arrow => "Arrow",
        Token::FatArrow => "FatArrow",
        Token::Range => "Range",
        Token::PathSep => "PathSep",
        Token::LBrace => "LBrace",
        Token::RBrace => "RBrace",
        Token::LBracket => "LBracket",
        Token::RBracket => "RBracket",
        Token::LParen => "LParen",
        Token::RParen => "RParen",
        Token::Colon => "Colon",
        Token::Semicolon => "Semicolon",
        Token::Comma => "Comma",
        Token::Dot => "Dot",
        Token::Pound => "Pound",
        Token::DocComment => "DocComment",
        Token::LineComment => "LineComment",
        Token::BlockComment => "BlockComment",
        Token::Whitespace => "Whitespace",
    }
}

} // verus!
