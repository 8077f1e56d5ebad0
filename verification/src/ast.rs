use vstd::prelude::*;

verus! {

#[derive(Debug)]
pub struct Program {
    pub items: Vec<Item>,
}

#[derive(Debug)]
pub enum Item {
    FnDef(FnDef),
    StructDef(StructDef),
    EnumDef(EnumDef),
    ConstDef(ConstDef),
    ModelDef(ModelDef),
    ProtoDef(ProtoDef),
    Use(UseStmt),
    Implement(ImplementDef),
    Interface(InterfaceDef),
}

#[derive(Debug)]
pub struct Attribute {
    pub name: String,
    pub args: Vec<AttributeArg>,
}

#[derive(Debug)]
pub enum AttributeArg {
    Ident(String),
    StringLit(String),
    Int(i64),
    Float(String),
    Rational(String),
    KeyValue(String, Box<AttributeArg>),
}

#[derive(Debug, PartialEq, Clone)]
pub enum GenericParam {
    Type { name: String, bounds: Vec<String> },
}

#[derive(Debug)]
pub struct FnDef {
    pub attributes: Vec<Attribute>,
    pub name: String,
    pub generic_params: Vec<GenericParam>,
    pub params: Vec<Param>,
    pub return_type: Option<Type>,
    pub body: Block,
}

#[derive(Debug)]
pub struct StructDef {
    pub name: String,
    pub generic_params: Vec<GenericParam>,
    pub fields: Vec<StructField>,
}

#[derive(Debug)]
pub struct StructField {
    pub name: String,
    pub ty: Type,
}

#[derive(Debug)]
pub struct EnumDef {
    pub name: String,
    pub generic_params: Vec<GenericParam>,
    pub variants: Vec<EnumVariant>,
}

#[derive(Debug)]
pub struct EnumVariant {
    pub name: String,
    pub ty: Option<Type>,
}

#[derive(Debug)]
pub struct ConstDef {
    pub name: String,
    pub ty: Type,
    pub value: Box<Expr>,
}

#[derive(Debug)]
pub struct ModelDef {
    pub attributes: Vec<Attribute>,
    pub name: String,
    pub generic_params: Vec<GenericParam>,
    pub fields: Vec<ModelField>,
    pub functions: Vec<FnDef>,
}

#[derive(Debug)]
pub struct ModelField {
    pub name: String,
    pub ty: Type,
}

#[derive(Debug)]
pub struct ProtoDef {
    pub name: String,
    pub variants: Vec<ProtoVariant>,
}

#[derive(Debug)]
pub struct ProtoVariant {
    pub name: String,
    pub ty: Option<Type>,
}

#[derive(Debug, PartialEq, Clone)]
pub struct UseStmt {
    pub path: String,
    pub alias: Option<String>,
}

#[derive(Debug)]
pub struct ImplementDef {
    pub attributes: Vec<Attribute>,
    pub generic_params: Vec<GenericParam>,
    pub target_type: Type,
    pub interface_name: Option<String>,
    pub functions: Vec<FnDef>,
    pub where_clause: Vec<WhereClause>,
}

#[derive(Debug)]
pub struct InterfaceDef {
    pub attributes: Vec<Attribute>,
    pub name: String,
    pub generic_params: Vec<GenericParam>,
    pub methods: Vec<FnSig>,
}

#[derive(Debug)]
pub struct FnSig {
    pub name: String,
    pub params: Vec<Param>,
    pub return_type: Option<Type>,
    pub generic_params: Vec<GenericParam>,
}

#[derive(Debug, PartialEq, Clone)]
pub struct WhereClause {
    pub type_param: String,
    pub bounds: Vec<String>,
}

#[derive(Debug)]
pub struct Param {
    pub name: String,
    pub ty: Type,
}

#[derive(Debug)]
pub struct Block {
    pub stmts: Vec<Stmt>,
}

#[derive(Debug)]
pub struct ForStmt {
    pub var: String,
    pub iterable: Box<Expr>,
    pub body: Block,
}

#[derive(Debug)]
pub struct AssignStmt {
    pub target: Box<Expr>,
    pub expr: Box<Expr>,
}

#[derive(Debug)]
pub struct LoopStmt {
    pub body: Block,
}

#[derive(Debug, PartialEq, Clone)]
pub struct BreakStmt {}

#[derive(Debug)]
pub struct MatchExpr {
    pub cond: Box<Expr>,
    pub arms: Vec<MatchArm>,
}

#[derive(Debug)]
pub struct MatchArm {
    pub pattern: Pattern,
    pub expr: Box<Expr>,
}

#[derive(Debug, PartialEq, Clone)]
pub enum Pattern {
    EnumVariant {
        enum_name: String,
        variant_name: String,
    },
    EnumVariantWithBinding {
        enum_name: String,
        variant_name: String,
        binding: String,
    },
    Wildcard,
}

#[derive(Debug)]
pub enum Stmt {
    Let(LetStmt),
    ExprStmt(Expr),
    Return(Option<Expr>),
    While(WhileStmt),
    For(ForStmt),
    Assign(AssignStmt),
    Loop(LoopStmt),
    Break(BreakStmt),
    UnsafeBlock(UnsafeBlockStmt),
}

#[derive(Debug)]
pub struct LetStmt {
    pub name: String,
    pub ty: Option<Type>,
    pub init: Box<Expr>,
    pub mutable: bool,
    pub persist: bool,
}

#[derive(Debug)]
pub struct UnsafeBlockStmt {
    pub kind: UnsafeKind,
    pub body: Block,
}

#[derive(Debug, PartialEq, Eq, Clone, Copy, Structural)]
pub enum UnsafeKind {
    Normal,
    Verify,
}

#[derive(Debug)]
pub struct WhileStmt {
    pub cond: Box<Expr>,
    pub body: Block,
}

#[derive(Debug)]
pub enum CallArg {
    Positional(Expr),
    Named(String, Expr),
}

#[derive(Debug)]
pub struct Expr {
    pub id: usize,
    pub kind: ExprKind,
}

#[derive(Debug)]
pub enum ExprKind {
    Literal(Literal),
    Ident(String),
    Sym(String),
    BinaryOp {
        op: BinaryOp,
        left: Box<Expr>,
        right: Box<Expr>,
    },
    Call {
        qualifier: Option<String>,
        func: String,
        args: Vec<CallArg>,
        is_method: bool,
    },
    Block(Block),
    StructInit {
        struct_name: String,
        fields: Vec<(String, Expr)>,
    },
    FieldAccess {
        struct_expr: Box<Expr>,
        field_name: String,
    },
    Range {
        start: Box<Expr>,
        end: Box<Expr>,
    },
    EnumVariantAccess {
        enum_name: String,
        variant_name: String,
    },
    EnumVariantConstruction {
        enum_name: String,
        variant_name: String,
        args: Vec<CallArg>,
    },
    Match(MatchExpr),
    Closure {
        param: String,
        body: Box<Expr>,
    },
    If {
        kind: IfKind,
        cond: Box<Expr>,
        then_expr: Box<Expr>,
        else_expr: Option<Box<Expr>>,
    },
    ArrayLiteral(Vec<Expr>),
    UnsafeBlock(UnsafeBlockStmt),
    Unary {
        op: UnaryOp,
        expr: Box<Expr>,
    },
    Cast {
        expr: Box<Expr>,
        ty: Type,
    },
    Index {
        expr: Box<Expr>,
        index: Box<Expr>,
    },
    LackSlice(Type),
}

#[derive(Debug, PartialEq, Eq, Clone, Copy, Structural)]
pub enum UnaryOp {
    Neg,
    Not,
}

#[derive(Debug, PartialEq, Eq, Clone, Copy, Structural)]
pub enum IfKind {
    Normal,
    Lack,
}

#[derive(Debug)]
pub enum Literal {
    Int(i64),
    Float(String),
    Bool(bool),
    String(String),
    Unit,
    ByteString(Vec<u8>),
}

#[derive(Debug, PartialEq, Eq, Clone, Copy, Structural)]
pub enum BinaryOp {
    Add,
    Sub,
    Mul,
    Div,
    Mod,
    Eq,
    Neq,
    Lt,
    Gt,
    Le,
    Ge,
    And,
    Or,
}

#[derive(Debug)]
pub enum Type {
    I8, I16, I32, I64, I128,
    U8, U16, U32, U64, U128,
    F16, F32, F64,
    SymInt,
    Bool,
    Char,
    Str,
    Struct(String),
    Enum(String),
    TypeParam(String),
    Generic(String, Vec<Type>),
    Tensor {
        dtype: Box<Type>,
        shape: Vec<ShapeDim>,
    },
    Privacy(Box<Type>, PrivacyTag),
    SelfType,
    ConstIntArray(Vec<i64>),
    Ref {
        mutable: bool,
        inner: Box<Type>,
    },
    Slice(Box<Type>),
    Unit,
}

#[derive(Debug, PartialEq, Clone)]
pub enum PrivacyTag {
    Public,
    Private,
    Differential { eps: String, delta: Option<String> },
}

#[derive(Debug, PartialEq, Clone)]
pub enum ShapeDim {
    Const(usize),
    Sym(String),
    Dyn,
}


// ===== copies =====

pub open spec fn shape_dim_same(a: ShapeDim, b: ShapeDim) -> bool {
    match (a, b) {
        (ShapeDim::Const(x), ShapeDim::Const(y)) => x == y,
        (ShapeDim::Sym(x), ShapeDim::Sym(y)) => x@ == y@,
        (ShapeDim::Dyn, ShapeDim::Dyn) => true,
        _ => false,
    }
}

pub open spec fn opt_text_same(a: Option<String>, b: Option<String>) -> bool {
    match (a, b) {
        (Some(x), Some(y)) => x@ == y@,
        (None, None) => true,
        _ => false,
    }
}

pub open spec fn privacy_tag_same(a: PrivacyTag, b: PrivacyTag) -> bool {
    match (a, b) {
        (PrivacyTag::Public, PrivacyTag::Public) => true,
        (PrivacyTag::Private, PrivacyTag::Private) => true,
        (PrivacyTag::Differential { eps: e1, delta: d1 }, PrivacyTag::Differential { eps: e2, delta: d2 }) =>
            e1@ == e2@ && opt_text_same(d1, d2),
        _ => false,
    }
}

/// Two types with the same structure and names (texts compared by view).
pub open spec fn type_same(a: Type, b: Type) -> bool
    decreases a,
{
    match a {
        Type::Struct(x) => b matches Type::Struct(y) && x@ == y@,
        Type::Enum(x) => b matches Type::Enum(y) && x@ == y@,
        Type::TypeParam(x) => b matches Type::TypeParam(y) && x@ == y@,
        Type::Generic(x, xs) => b matches Type::Generic(y, ys) && x@ == y@ && xs@.len() == ys@.len()
            && forall|k: int| 0 <= k < xs@.len() ==> type_same(#[trigger] xs@[k], ys@[k]),
        Type::Tensor { dtype: d1, shape: s1 } => b matches Type::Tensor { dtype: d2, shape: s2 }
            && type_same(*d1, *d2) && s1@.len() == s2@.len()
            && forall|k: int| 0 <= k < s1@.len() ==> shape_dim_same(#[trigger] s1@[k], s2@[k]),
        Type::Privacy(i1, t1) => b matches Type::Privacy(i2, t2) && type_same(*i1, *i2) && privacy_tag_same(t1, t2),
        Type::ConstIntArray(v1) => b matches Type::ConstIntArray(v2) && v1@ == v2@,
        Type::Ref { mutable: m1, inner: i1 } => b matches Type::Ref { mutable: m2, inner: i2 } && m1 == m2 && type_same(*i1, *i2),
        Type::Slice(i1) => b matches Type::Slice(i2) && type_same(*i1, *i2),
        _ => a == b,
    }
}

pub open spec fn opt_type_same(a: Option<Type>, b: Option<Type>) -> bool {
    match (a, b) {
        (Some(x), Some(y)) => type_same(x, y),
        (None, None) => true,
        _ => false,
    }
}

pub fn copy_shape_dim(d: &ShapeDim) -> (r: ShapeDim)
    ensures
        shape_dim_same(r, *d),
{
    match d {
        ShapeDim::Const(c) => ShapeDim::Const(*c),
        ShapeDim::Sym(n) => ShapeDim::Sym(n.clone()),
        ShapeDim::Dyn => ShapeDim::Dyn,
    }
}

pub fn copy_privacy_tag(t: &PrivacyTag) -> (r: PrivacyTag)
    ensures
        privacy_tag_same(r, *t),
{
    match t {
        PrivacyTag::Public => PrivacyTag::Public,
        PrivacyTag::Private => PrivacyTag::Private,
        PrivacyTag::Differential { eps, delta } => PrivacyTag::Differential {
            eps: eps.clone(),
            delta: match delta {
                Some(d) => Some(d.clone()),
                None => None,
            },
        },
    }
}

/// A copy of a type.
#[verifier::loop_isolation(false)]
pub fn copy_type(t: &Type) -> (r: Type)
    ensures
        type_same(r, *t),
    decreases t,
{
    match t {
        Type::I8 => Type::I8,
        Type::I16 => Type::I16,
        Type::I32 => Type::I32,
        Type::I64 => Type::I64,
        Type::I128 => Type::I128,
        Type::U8 => Type::U8,
        Type::U16 => Type::U16,
        Type::U32 => Type::U32,
        Type::U64 => Type::U64,
        Type::U128 => Type::U128,
        Type::F16 => Type::F16,
        Type::F32 => Type::F32,
        Type::F64 => Type::F64,
        Type::SymInt => Type::SymInt,
        Type::Bool => Type::Bool,
        Type::Char => Type::Char,
        Type::Str => Type::Str,
        Type::SelfType => Type::SelfType,
        Type::Unit => Type::Unit,
        Type::Struct(n) => Type::Struct(n.clone()),
        Type::Enum(n) => Type::Enum(n.clone()),
        Type::TypeParam(n) => Type::TypeParam(n.clone()),
        Type::Generic(n, args) => {
            let mut out: Vec<Type> = Vec::new();
            let mut k: usize = 0;
            while k < args.len()
                invariant
                    k <= args@.len(),
                    out@.len() == k,
                    forall|j: int| 0 <= j < k ==> type_same(#[trigger] out@[j], args@[j]),
                decreases args.len() - k,
            {
                proof {
                    broadcast use vstd::std_specs::vec::axiom_vec_index_decreases;
                    assert(decreases_to!(*args => args[k as int]));
                }
                out.push(copy_type(&args[k]));
                k += 1;
            }
            Type::Generic(n.clone(), out)
        },
        Type::Tensor { dtype, shape } => {
            let d = copy_type(dtype);
            let mut out: Vec<ShapeDim> = Vec::new();
            let mut k: usize = 0;
            while k < shape.len()
                invariant
                    k <= shape@.len(),
                    out@.len() == k,
                    forall|j: int| 0 <= j < k ==> shape_dim_same(#[trigger] out@[j], shape@[j]),
                decreases shape.len() - k,
            {
                out.push(copy_shape_dim(&shape[k]));
                k += 1;
            }
            Type::Tensor { dtype: Box::new(d), shape: out }
        },
        Type::Privacy(inner, tag) => Type::Privacy(Box::new(copy_type(inner)), copy_privacy_tag(tag)),
        Type::ConstIntArray(v) => {
            let mut out: Vec<i64> = Vec::new();
            let mut k: usize = 0;
            while k < v.len()
                invariant
                    k <= v@.len(),
                    out@ == v@.take(k as int),
                decreases v.len() - k,
            {
                out.push(v[k]);
                k += 1;
                assert(out@ == v@.take(k as int));
            }
            assert(v@.take(v@.len() as int) == v@);
            Type::ConstIntArray(out)
        },
        Type::Ref { mutable, inner } => Type::Ref { mutable: *mutable, inner: Box::new(copy_type(inner)) },
        Type::Slice(inner) => Type::Slice(Box::new(copy_type(inner))),
    }
}

pub fn copy_opt_type(t: &Option<Type>) -> (r: Option<Type>)
    ensures
        opt_type_same(r, *t),
{
    match t {
        Some(x) => Some(copy_type(x)),
        None => None,
    }
}


pub fn copy_string_list(v: &Vec<String>) -> (r: Vec<String>)
    ensures
        r@ == v@,
{
    let mut out: Vec<String> = Vec::new();
    let mut k: usize = 0;
    while k < v.len()
        invariant
            k <= v@.len(),
            out@ == v@.take(k as int),
        decreases v.len() - k,
    {
        out.push(v[k].clone());
        k += 1;
        assert(out@ == v@.take(k as int));
    }
    assert(v@.take(v@.len() as int) == v@);
    out
}

/// Two literals with the same kind and value (texts and bytes compared by view).
pub open spec fn literal_same(a: Literal, b: Literal) -> bool {
    match (a, b) {
        (Literal::Int(x), Literal::Int(y)) => x == y,
        (Literal::Float(x), Literal::Float(y)) => x@ == y@,
        (Literal::Bool(x), Literal::Bool(y)) => x == y,
        (Literal::String(x), Literal::String(y)) => x@ == y@,
        (Literal::Unit, Literal::Unit) => true,
        (Literal::ByteString(x), Literal::ByteString(y)) => x@ == y@,
        _ => false,
    }
}

/// A copy of a literal.
pub fn copy_literal(l: &Literal) -> (r: Literal)
    ensures
        literal_same(r, *l),
{
    match l {
        Literal::Int(v) => Literal::Int(*v),
        Literal::Float(t) => Literal::Float(t.clone()),
        Literal::Bool(b) => Literal::Bool(*b),
        Literal::String(t) => Literal::String(t.clone()),
        Literal::Unit => Literal::Unit,
        Literal::ByteString(b) => {
            let mut out: Vec<u8> = Vec::new();
            let mut k: usize = 0;
            while k < b.len()
                invariant
                    k <= b@.len(),
                    out@ == b@.take(k as int),
                decreases b.len() - k,
            {
                out.push(b[k]);
                k += 1;
            }
            assert(b@.take(b@.len() as int) == b@);
            Literal::ByteString(out)
        },
    }
}

pub fn copy_pattern(p: &Pattern) -> (r: Pattern)
    ensures
        r == *p,
{
    match p {
        Pattern::EnumVariant { enum_name, variant_name } =>
            Pattern::EnumVariant { enum_name: enum_name.clone(), variant_name: variant_name.clone() },
        Pattern::EnumVariantWithBinding { enum_name, variant_name, binding } =>
            Pattern::EnumVariantWithBinding {
                enum_name: enum_name.clone(),
                variant_name: variant_name.clone(),
                binding: binding.clone(),
            },
        Pattern::Wildcard => Pattern::Wildcard,
    }
}

/// A copy of an expression tree, with the same ids.
#[verifier::loop_isolation(false)]
pub fn copy_expr(e: &Expr) -> (r: Expr)
    ensures
        r.id == e.id,
        e.kind matches ExprKind::Ident(n) ==> (r.kind matches ExprKind::Ident(m) && m@ == n@),
    decreases e, 1int,
{
    let kind = match &e.kind {
        ExprKind::Literal(l) => ExprKind::Literal(copy_literal(l)),
        ExprKind::Ident(n) => ExprKind::Ident(n.clone()),
        ExprKind::Sym(n) => ExprKind::Sym(n.clone()),
        ExprKind::BinaryOp { op, left, right } =>
            ExprKind::BinaryOp { op: *op, left: Box::new(copy_expr(left)), right: Box::new(copy_expr(right)) },
        ExprKind::Call { qualifier, func, args, is_method } => ExprKind::Call {
            qualifier: match qualifier { Some(q) => Some(q.clone()), None => None },
            func: func.clone(),
            args: copy_call_args(args),
            is_method: *is_method,
        },
        ExprKind::Block(b) => ExprKind::Block(copy_block(b)),
        ExprKind::StructInit { struct_name, fields } => {
            let mut out: Vec<(String, Expr)> = Vec::new();
            let mut k: usize = 0;
            while k < fields.len()
                invariant
                    k <= fields@.len(),
                decreases fields.len() - k,
            {
                proof {
                    broadcast use vstd::std_specs::vec::axiom_vec_index_decreases;
                    assert(decreases_to!(*fields => fields[k as int]));
                }
                let (name, value) = &fields[k];
                out.push((name.clone(), copy_expr(value)));
                k += 1;
            }
            ExprKind::StructInit { struct_name: struct_name.clone(), fields: out }
        },
        ExprKind::FieldAccess { struct_expr, field_name } =>
            ExprKind::FieldAccess { struct_expr: Box::new(copy_expr(struct_expr)), field_name: field_name.clone() },
        ExprKind::Range { start, end } =>
            ExprKind::Range { start: Box::new(copy_expr(start)), end: Box::new(copy_expr(end)) },
        ExprKind::EnumVariantAccess { enum_name, variant_name } =>
            ExprKind::EnumVariantAccess { enum_name: enum_name.clone(), variant_name: variant_name.clone() },
        ExprKind::EnumVariantConstruction { enum_name, variant_name, args } =>
            ExprKind::EnumVariantConstruction {
                enum_name: enum_name.clone(),
                variant_name: variant_name.clone(),
                args: copy_call_args(args),
            },
        ExprKind::Match(m) => {
            let cond = copy_expr(&m.cond);
            let mut arms: Vec<MatchArm> = Vec::new();
            let mut k: usize = 0;
            while k < m.arms.len()
                invariant
                    k <= m.arms@.len(),
                decreases m.arms.len() - k,
            {
                proof {
                    broadcast use vstd::std_specs::vec::axiom_vec_index_decreases;
                    assert(decreases_to!(m.arms => m.arms[k as int]));
                }
                let arm = &m.arms[k];
                arms.push(MatchArm { pattern: copy_pattern(&arm.pattern), expr: Box::new(copy_expr(&arm.expr)) });
                k += 1;
            }
            ExprKind::Match(MatchExpr { cond: Box::new(cond), arms })
        },
        ExprKind::Closure { param, body } =>
            ExprKind::Closure { param: param.clone(), body: Box::new(copy_expr(body)) },
        ExprKind::If { kind, cond, then_expr, else_expr } => ExprKind::If {
            kind: *kind,
            cond: Box::new(copy_expr(cond)),
            then_expr: Box::new(copy_expr(then_expr)),
            else_expr: match else_expr { Some(x) => Some(Box::new(copy_expr(x))), None => None },
        },
        ExprKind::ArrayLiteral(items) => {
            let mut out: Vec<Expr> = Vec::new();
            let mut k: usize = 0;
            while k < items.len()
                invariant
                    k <= items@.len(),
                decreases items.len() - k,
            {
                proof {
                    broadcast use vstd::std_specs::vec::axiom_vec_index_decreases;
                    assert(decreases_to!(*items => items[k as int]));
                }
                out.push(copy_expr(&items[k]));
                k += 1;
            }
            ExprKind::ArrayLiteral(out)
        },
        ExprKind::UnsafeBlock(u) => ExprKind::UnsafeBlock(UnsafeBlockStmt { kind: u.kind, body: copy_block(&u.body) }),
        ExprKind::Unary { op, expr } => ExprKind::Unary { op: *op, expr: Box::new(copy_expr(expr)) },
        ExprKind::Cast { expr, ty } => ExprKind::Cast { expr: Box::new(copy_expr(expr)), ty: copy_type(ty) },
        ExprKind::Index { expr, index } =>
            ExprKind::Index { expr: Box::new(copy_expr(expr)), index: Box::new(copy_expr(index)) },
        ExprKind::LackSlice(ty) => ExprKind::LackSlice(copy_type(ty)),
    };
    Expr { id: e.id, kind }
}

#[verifier::loop_isolation(false)]
fn copy_call_args(args: &Vec<CallArg>) -> (r: Vec<CallArg>)
    ensures
        r@.len() == args@.len(),
    decreases args, 0int,
{
    let mut out: Vec<CallArg> = Vec::new();
    let mut k: usize = 0;
    while k < args.len()
        invariant
            k <= args@.len(),
            out@.len() == k,
        decreases args.len() - k,
    {
        proof {
            broadcast use vstd::std_specs::vec::axiom_vec_index_decreases;
            assert(decreases_to!(*args => args[k as int]));
        }
        let a = match &args[k] {
            CallArg::Positional(x) => CallArg::Positional(copy_expr(x)),
            CallArg::Named(n, x) => CallArg::Named(n.clone(), copy_expr(x)),
        };
        out.push(a);
        k += 1;
    }
    out
}

/// A copy of a block.
#[verifier::loop_isolation(false)]
pub fn copy_block(b: &Block) -> (r: Block)
    ensures
        r.stmts@.len() == b.stmts@.len(),
    decreases b, 0int,
{
    let mut out: Vec<Stmt> = Vec::new();
    let mut k: usize = 0;
    while k < b.stmts.len()
        invariant
            k <= b.stmts@.len(),
            out@.len() == k,
        decreases b.stmts.len() - k,
    {
        proof {
            broadcast use vstd::std_specs::vec::axiom_vec_index_decreases;
            assert(decreases_to!(b.stmts => b.stmts[k as int]));
        }
        out.push(copy_stmt(&b.stmts[k]));
        k += 1;
    }
    Block { stmts: out }
}

/// `r` is a copy of the statement `s`: the same kind, names and flags, expressions with the
/// same ids, and blocks of as many statements.
pub open spec fn stmt_copied(r: Stmt, s: Stmt) -> bool {
    match (r, s) {
        (Stmt::Let(a), Stmt::Let(b)) => a.name@ == b.name@ && opt_type_same(a.ty, b.ty) && a.init.id == b.init.id
            && a.mutable == b.mutable && a.persist == b.persist,
        (Stmt::ExprStmt(a), Stmt::ExprStmt(b)) => a.id == b.id,
        (Stmt::Return(a), Stmt::Return(b)) => match (a, b) {
            (Some(x), Some(y)) => x.id == y.id,
            (None, None) => true,
            _ => false,
        },
        (Stmt::While(a), Stmt::While(b)) => a.cond.id == b.cond.id && a.body.stmts@.len() == b.body.stmts@.len(),
        (Stmt::For(a), Stmt::For(b)) => a.var@ == b.var@ && a.iterable.id == b.iterable.id
            && a.body.stmts@.len() == b.body.stmts@.len(),
        (Stmt::Assign(a), Stmt::Assign(b)) => a.target.id == b.target.id && a.expr.id == b.expr.id,
        (Stmt::Loop(a), Stmt::Loop(b)) => a.body.stmts@.len() == b.body.stmts@.len(),
        (Stmt::Break(_), Stmt::Break(_)) => true,
        (Stmt::UnsafeBlock(a), Stmt::UnsafeBlock(b)) => a.kind == b.kind && a.body.stmts@.len() == b.body.stmts@.len(),
        _ => false,
    }
}

#[verifier::loop_isolation(false)]
fn copy_stmt(s: &Stmt) -> (r: Stmt)
    ensures
        stmt_copied(r, *s),
    decreases s, 0int,
{
    match s {
        Stmt::Let(l) => Stmt::Let(LetStmt {
            name: l.name.clone(),
            ty: copy_opt_type(&l.ty),
            init: Box::new(copy_expr(&l.init)),
            mutable: l.mutable,
            persist: l.persist,
        }),
        Stmt::ExprStmt(e) => Stmt::ExprStmt(copy_expr(e)),
        Stmt::Return(e) => Stmt::Return(match e { Some(x) => Some(copy_expr(x)), None => None }),
        Stmt::While(w) => Stmt::While(WhileStmt { cond: Box::new(copy_expr(&w.cond)), body: copy_block(&w.body) }),
        Stmt::For(f) => Stmt::For(ForStmt {
            var: f.var.clone(),
            iterable: Box::new(copy_expr(&f.iterable)),
            body: copy_block(&f.body),
        }),
        Stmt::Assign(a) => Stmt::Assign(AssignStmt { target: Box::new(copy_expr(&a.target)), expr: Box::new(copy_expr(&a.expr)) }),
        Stmt::Loop(l) => Stmt::Loop(LoopStmt { body: copy_block(&l.body) }),
        Stmt::Break(_) => Stmt::Break(BreakStmt {}),
        Stmt::UnsafeBlock(u) => Stmt::UnsafeBlock(UnsafeBlockStmt { kind: u.kind, body: copy_block(&u.body) }),
    }
}


/// Two attribute arguments of the same kind and value (texts compared by view).
pub open spec fn attr_arg_same(a: AttributeArg, b: AttributeArg) -> bool
    decreases a,
{
    match (a, b) {
        (AttributeArg::Ident(x), AttributeArg::Ident(y)) => x@ == y@,
        (AttributeArg::StringLit(x), AttributeArg::StringLit(y)) => x@ == y@,
        (AttributeArg::Int(x), AttributeArg::Int(y)) => x == y,
        (AttributeArg::Float(x), AttributeArg::Float(y)) => x@ == y@,
        (AttributeArg::Rational(x), AttributeArg::Rational(y)) => x@ == y@,
        (AttributeArg::KeyValue(k1, v1), AttributeArg::KeyValue(k2, v2)) => k1@ == k2@ && attr_arg_same(*v1, *v2),
        _ => false,
    }
}

/// A copy of an attribute argument.
pub fn copy_attribute_arg(a: &AttributeArg) -> (r: AttributeArg)
    ensures
        attr_arg_same(r, *a),
    decreases a,
{
    match a {
        AttributeArg::Ident(s) => AttributeArg::Ident(s.clone()),
        AttributeArg::StringLit(s) => AttributeArg::StringLit(s.clone()),
        AttributeArg::Int(v) => AttributeArg::Int(*v),
        AttributeArg::Float(s) => AttributeArg::Float(s.clone()),
        AttributeArg::Rational(s) => AttributeArg::Rational(s.clone()),
        AttributeArg::KeyValue(k, v) => AttributeArg::KeyValue(k.clone(), Box::new(copy_attribute_arg(v))),
    }
}

/// A copy of a list of attributes.
pub fn copy_attributes(v: &Vec<Attribute>) -> (r: Vec<Attribute>)
    ensures
        r@.len() == v@.len(),
        forall|k: int| 0 <= k < v@.len() ==> (#[trigger] r@[k]).name@ == v@[k].name@,
{
    let mut out: Vec<Attribute> = Vec::new();
    let mut k: usize = 0;
    while k < v.len()
        invariant
            k <= v@.len(),
            out@.len() == k,
            forall|j: int| 0 <= j < k ==> (#[trigger] out@[j]).name@ == v@[j].name@,
        decreases v.len() - k,
    {
        let mut args: Vec<AttributeArg> = Vec::new();
        let mut j: usize = 0;
        while j < v[k].args.len()
            invariant
                k < v@.len(),
                j <= v@[k as int].args@.len(),
            decreases v[k as int].args@.len() - j,
        {
            args.push(copy_attribute_arg(&v[k].args[j]));
            j += 1;
        }
        out.push(Attribute { name: v[k].name.clone(), args });
        k += 1;
    }
    out
}

/// Generic parameters with the same name and bounds.
pub open spec fn generic_param_same(a: GenericParam, b: GenericParam) -> bool {
    match (a, b) {
        (GenericParam::Type { name: n1, bounds: b1 }, GenericParam::Type { name: n2, bounds: b2 }) =>
            n1@ == n2@ && b1@ == b2@,
    }
}

/// Generic parameters with the same names and bounds, in order.
pub open spec fn generic_params_same(a: Seq<GenericParam>, b: Seq<GenericParam>) -> bool {
    &&& a.len() == b.len()
    &&& forall|k: int| 0 <= k < a.len() ==> generic_param_same(#[trigger] a[k], b[k])
}

/// A copy of a list of generic parameters.
pub fn copy_generic_params(v: &Vec<GenericParam>) -> (r: Vec<GenericParam>)
    ensures
        generic_params_same(r@, v@),
{
    let mut out: Vec<GenericParam> = Vec::new();
    let mut k: usize = 0;
    while k < v.len()
        invariant
            k <= v@.len(),
            generic_params_same(out@, v@.take(k as int)),
        decreases v.len() - k,
    {
        let g = match &v[k] {
            GenericParam::Type { name, bounds } => GenericParam::Type { name: name.clone(), bounds: copy_string_list(bounds) },
        };
        out.push(g);
        k += 1;
        assert forall|j: int| 0 <= j < k implies #[trigger] v@.take(k as int)[j] == v@[j] by {}
    }
    assert(v@.take(v@.len() as int) == v@);
    out
}

/// A copy of a list of parameters.
pub fn copy_params(v: &Vec<Param>) -> (r: Vec<Param>)
    ensures
        r@.len() == v@.len(),
        forall|k: int| 0 <= k < v@.len() ==> (#[trigger] r@[k]).name@ == v@[k].name@ && type_same(r@[k].ty, v@[k].ty),
{
    let mut out: Vec<Param> = Vec::new();
    let mut k: usize = 0;
    while k < v.len()
        invariant
            k <= v@.len(),
            out@.len() == k,
            forall|j: int| 0 <= j < k ==> (#[trigger] out@[j]).name@ == v@[j].name@ && type_same(out@[j].ty, v@[j].ty),
        decreases v.len() - k,
    {
        out.push(Param { name: v[k].name.clone(), ty: copy_type(&v[k].ty) });
        k += 1;
    }
    out
}

/// A copy of a function definition.
pub fn copy_fn_def(f: &FnDef) -> (r: FnDef)
    ensures
        r.name@ == f.name@,
        r.params@.len() == f.params@.len(),
        forall|k: int| 0 <= k < f.params@.len() ==> (#[trigger] r.params@[k]).name@ == f.params@[k].name@
            && type_same(r.params@[k].ty, f.params@[k].ty),
        opt_type_same(r.return_type, f.return_type),
        generic_params_same(r.generic_params@, f.generic_params@),
{
    FnDef {
        attributes: copy_attributes(&f.attributes),
        name: f.name.clone(),
        generic_params: copy_generic_params(&f.generic_params),
        params: copy_params(&f.params),
        return_type: copy_opt_type(&f.return_type),
        body: copy_block(&f.body),
    }
}

/// A copy of a struct definition.
pub fn copy_struct_def(s: &StructDef) -> (r: StructDef)
    ensures
        r.name@ == s.name@,
        generic_params_same(r.generic_params@, s.generic_params@),
        r.fields@.len() == s.fields@.len(),
        forall|k: int| 0 <= k < s.fields@.len() ==> (#[trigger] r.fields@[k]).name@ == s.fields@[k].name@
            && type_same(r.fields@[k].ty, s.fields@[k].ty),
{
    let mut fields: Vec<StructField> = Vec::new();
    let mut k: usize = 0;
    while k < s.fields.len()
        invariant
            k <= s.fields@.len(),
            fields@.len() == k,
            forall|j: int| 0 <= j < k ==> (#[trigger] fields@[j]).name@ == s.fields@[j].name@
                && type_same(fields@[j].ty, s.fields@[j].ty),
        decreases s.fields.len() - k,
    {
        fields.push(StructField { name: s.fields[k].name.clone(), ty: copy_type(&s.fields[k].ty) });
        k += 1;
    }
    StructDef { name: s.name.clone(), generic_params: copy_generic_params(&s.generic_params), fields }
}

/// A copy of an enum definition.
pub fn copy_enum_def(e: &EnumDef) -> (r: EnumDef)
    ensures
        r.name@ == e.name@,
        generic_params_same(r.generic_params@, e.generic_params@),
        r.variants@.len() == e.variants@.len(),
        forall|k: int| 0 <= k < e.variants@.len() ==> (#[trigger] r.variants@[k]).name@ == e.variants@[k].name@
            && opt_type_same(r.variants@[k].ty, e.variants@[k].ty),
{
    let mut variants: Vec<EnumVariant> = Vec::new();
    let mut k: usize = 0;
    while k < e.variants.len()
        invariant
            k <= e.variants@.len(),
            variants@.len() == k,
            forall|j: int| 0 <= j < k ==> (#[trigger] variants@[j]).name@ == e.variants@[j].name@
                && opt_type_same(variants@[j].ty, e.variants@[j].ty),
        decreases e.variants.len() - k,
    {
        variants.push(EnumVariant { name: e.variants[k].name.clone(), ty: copy_opt_type(&e.variants[k].ty) });
        k += 1;
    }
    EnumDef { name: e.name.clone(), generic_params: copy_generic_params(&e.generic_params), variants }
}


/// The name of a generic parameter.
pub open spec fn generic_param_name_of(g: GenericParam) -> String {
    match g {
        GenericParam::Type { name, .. } => name,
    }
}

} // verus!
