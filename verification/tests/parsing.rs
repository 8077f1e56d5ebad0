use xiyi_compiler::ast::{AttributeArg, BinaryOp, CallArg, Expr, ExprKind, Item, Literal, Stmt, Type, UnaryOp};
use xiyi_compiler::ast::{PrivacyTag, ShapeDim};
use xiyi_compiler::parser::Parser;
use xiyi_compiler::show::type_debug;

fn first_stmt(src: &str) -> Stmt {
    let mut parser = Parser::new(src);
    let program = parser.parse_program().unwrap();
    match program.items.into_iter().next() {
        Some(Item::FnDef(f)) => f.body.stmts.into_iter().next().unwrap(),
        _ => panic!("expected a function"),
    }
}

fn init_of(stmt: Stmt) -> Expr {
    match stmt {
        Stmt::Let(l) => *l.init,
        _ => panic!("expected a let"),
    }
}

#[test]
fn persist_needs_let_or_var() {
    let mut parser = Parser::new("fn f() { persist x = 1; }");
    assert_eq!(parser.parse_program().unwrap_err(), "Expected 'let' or 'var' after 'persist'");
}

#[test]
fn var_binding_is_mutable_and_let_is_not() {
    match first_stmt("fn f() { var x = 1; }") {
        Stmt::Let(l) => assert!(l.mutable && !l.persist),
        _ => panic!("expected a let"),
    }
    match first_stmt("fn f() { persist let x = 1; }") {
        Stmt::Let(l) => assert!(!l.mutable && l.persist),
        _ => panic!("expected a let"),
    }
}

#[test]
fn integer_literal_keeps_its_value() {
    let e = init_of(first_stmt("fn f() { let x = 42; }"));
    assert!(matches!(e.kind, ExprKind::Literal(Literal::Int(42))));
}

#[test]
fn string_literal_loses_its_quotes() {
    let e = init_of(first_stmt("fn f() { let s = \"hi\"; }"));
    match e.kind {
        ExprKind::Literal(Literal::String(t)) => assert_eq!(t, "hi"),
        _ => panic!("expected a string literal"),
    }
}

#[test]
fn empty_parentheses_are_unit() {
    let e = init_of(first_stmt("fn f() { let u = (); }"));
    assert!(matches!(e.kind, ExprKind::Literal(Literal::Unit)));
}

#[test]
fn name_before_parenthesis_is_a_call() {
    let e = init_of(first_stmt("fn f() { let v = g(1); }"));
    match e.kind {
        ExprKind::Call { func, is_method, qualifier, .. } => {
            assert_eq!(func, "g");
            assert!(!is_method && qualifier.is_none());
        }
        _ => panic!("expected a call"),
    }
}

#[test]
fn path_names_an_enum_variant() {
    let e = init_of(first_stmt("fn f() { let v = E::A; }"));
    match e.kind {
        ExprKind::EnumVariantAccess { enum_name, variant_name } => {
            assert_eq!(enum_name, "E");
            assert_eq!(variant_name, "A");
        }
        _ => panic!("expected a variant"),
    }
}

#[test]
fn compound_assignment_becomes_an_operation() {
    match first_stmt("fn f() { x += 1; }") {
        Stmt::Assign(a) => assert!(matches!(a.expr.kind, ExprKind::BinaryOp { .. })),
        _ => panic!("expected an assignment"),
    }
}

#[test]
fn a_stray_token_is_no_expression() {
    let mut parser = Parser::new("fn f() { let x = ; }");
    assert_eq!(parser.parse_program().unwrap_err(), "Expected expression");
}

#[test]
fn items_come_in_order_with_their_names() {
    let mut parser = Parser::new("mod m; struct P { x: i32 } fn main() {} const C: i32 = 1;");
    let program = parser.parse_program().unwrap();
    assert_eq!(program.items.len(), 3);
    assert!(matches!(&program.items[0], Item::StructDef(s) if s.name == "P"));
    assert!(matches!(&program.items[1], Item::FnDef(f) if f.name == "main"));
    assert!(matches!(&program.items[2], Item::ConstDef(c) if c.name == "C"));
}

#[test]
fn a_stray_top_level_token_is_refused() {
    let mut parser = Parser::new("42");
    assert_eq!(
        parser.parse_program().unwrap_err(),
        "Expected function, model, implement, interface, use, struct, enum, or const definition"
    );
}

fn binop_parts(e: &Expr) -> (&BinaryOp, &Expr, &Expr) {
    match &e.kind {
        ExprKind::BinaryOp { op, left, right } => (op, left, right),
        _ => panic!("expected a binary operation"),
    }
}

#[test]
fn multiplication_binds_tighter_than_addition() {
    let e = init_of(first_stmt("fn f() { let v = 1 + 2 * 3; }"));
    let (op, left, right) = binop_parts(&e);
    assert!(matches!(op, BinaryOp::Add));
    assert!(matches!(left.kind, ExprKind::Literal(Literal::Int(1))));
    let (op2, l2, r2) = binop_parts(right);
    assert!(matches!(op2, BinaryOp::Mul));
    assert!(matches!(l2.kind, ExprKind::Literal(Literal::Int(2))));
    assert!(matches!(r2.kind, ExprKind::Literal(Literal::Int(3))));
}

#[test]
fn subtraction_groups_to_the_left() {
    let e = init_of(first_stmt("fn f() { let v = 1 - 2 - 3; }"));
    let (op, left, right) = binop_parts(&e);
    assert!(matches!(op, BinaryOp::Sub));
    assert!(matches!(right.kind, ExprKind::Literal(Literal::Int(3))));
    let (op2, l2, r2) = binop_parts(left);
    assert!(matches!(op2, BinaryOp::Sub));
    assert!(matches!(l2.kind, ExprKind::Literal(Literal::Int(1))));
    assert!(matches!(r2.kind, ExprKind::Literal(Literal::Int(2))));
}

#[test]
fn negation_applies_to_its_operand_only() {
    let e = init_of(first_stmt("fn f() { let v = -a * b; }"));
    let (op, left, _) = binop_parts(&e);
    assert!(matches!(op, BinaryOp::Mul));
    assert!(matches!(left.kind, ExprKind::Unary { op: UnaryOp::Neg, .. }));
}

fn only_item(src: &str) -> Item {
    let mut parser = Parser::new(src);
    let program = parser.parse_program().unwrap();
    assert_eq!(program.items.len(), 1);
    program.items.into_iter().next().unwrap()
}

#[test]
fn empty_input_is_an_empty_program() {
    let mut parser = Parser::new("");
    assert_eq!(parser.parse_program().unwrap().items.len(), 0);
}

#[test]
fn empty_function_has_no_params_and_no_statements() {
    match only_item("fn f() {}") {
        Item::FnDef(f) => {
            assert_eq!(f.name, "f");
            assert!(f.params.is_empty() && f.body.stmts.is_empty() && f.return_type.is_none());
        },
        _ => panic!("expected a function"),
    }
}

#[test]
fn empty_declarations_parse() {
    match only_item("interface Shape {}") {
        Item::Interface(d) => assert!(d.name == "Shape" && d.methods.is_empty()),
        _ => panic!("expected an interface"),
    }
    match only_item("implement i32 {}") {
        Item::Implement(d) => assert!(matches!(d.target_type, Type::I32) && d.interface_name.is_none() && d.functions.is_empty()),
        _ => panic!("expected an implement block"),
    }
    match only_item("struct Unit {}") {
        Item::StructDef(d) => assert!(d.name == "Unit" && d.fields.is_empty()),
        _ => panic!("expected a struct"),
    }
    match only_item("enum Never {}") {
        Item::EnumDef(d) => assert!(d.name == "Never" && d.variants.is_empty()),
        _ => panic!("expected an enum"),
    }
    match only_item("model Empty {}") {
        Item::ModelDef(d) => assert!(d.name == "Empty" && d.fields.is_empty() && d.functions.is_empty()),
        _ => panic!("expected a model"),
    }
}

#[test]
fn constant_keeps_its_type_and_value() {
    match only_item("const LIMIT: u64 = 12;") {
        Item::ConstDef(c) => {
            assert_eq!(c.name, "LIMIT");
            assert!(matches!(c.ty, Type::U64));
            assert!(matches!(c.value.kind, ExprKind::Literal(Literal::Int(12))));
        },
        _ => panic!("expected a constant"),
    }
}

#[test]
fn single_name_use_has_no_alias() {
    match only_item("use alpha;") {
        Item::Use(u) => assert!(u.path == "alpha" && u.alias.is_none()),
        _ => panic!("expected a use"),
    }
}

#[test]
fn where_entries_keep_their_bounds() {
    match only_item("implement i32 where T: Copy Clone, U: Eq {}") {
        Item::Implement(d) => {
            assert_eq!(d.where_clause.len(), 2);
            assert_eq!(d.where_clause[0].type_param, "T");
            assert_eq!(d.where_clause[0].bounds, vec!["Copy".to_string(), "Clone".to_string()]);
            assert_eq!(d.where_clause[1].type_param, "U");
            assert_eq!(d.where_clause[1].bounds, vec!["Eq".to_string()]);
        },
        _ => panic!("expected an implement block"),
    }
}

#[test]
fn where_entry_without_colon_is_refused() {
    let mut parser = Parser::new("implement i32 where T Copy {}");
    assert!(parser.parse_program().is_err());
}

#[test]
fn attribute_arguments_are_read_by_kind() {
    match only_item("#[scale(k = 3/4, 2.5, \"s\", 7, name)] fn f() {}") {
        Item::FnDef(f) => {
            assert_eq!(f.attributes.len(), 1);
            let a = &f.attributes[0];
            assert_eq!(a.name, "scale");
            assert_eq!(a.args.len(), 5);
            match &a.args[0] {
                AttributeArg::KeyValue(k, v) => {
                    assert_eq!(k, "k");
                    assert!(matches!(&**v, AttributeArg::Rational(r) if r == "3/4"));
                },
                _ => panic!("expected a key and value"),
            }
            assert!(matches!(&a.args[1], AttributeArg::Float(x) if x == "2.5"));
            assert!(matches!(&a.args[3], AttributeArg::Int(7)));
            assert!(matches!(&a.args[4], AttributeArg::Ident(x) if x == "name"));
        },
        _ => panic!("expected a function"),
    }
}

#[test]
fn bare_attribute_has_no_arguments() {
    match only_item("#[inline] fn f() {}") {
        Item::FnDef(f) => assert!(f.attributes.len() == 1 && f.attributes[0].name == "inline" && f.attributes[0].args.is_empty()),
        _ => panic!("expected a function"),
    }
}

#[test]
fn integer_pairs_become_binary_operations() {
    let cases: Vec<(&str, fn(&BinaryOp) -> bool)> = vec![
        ("*", |o| matches!(o, BinaryOp::Mul)),
        ("/", |o| matches!(o, BinaryOp::Div)),
        ("%", |o| matches!(o, BinaryOp::Mod)),
        ("+", |o| matches!(o, BinaryOp::Add)),
        ("-", |o| matches!(o, BinaryOp::Sub)),
        ("==", |o| matches!(o, BinaryOp::Eq)),
        ("!=", |o| matches!(o, BinaryOp::Neq)),
        ("<", |o| matches!(o, BinaryOp::Lt)),
        (">", |o| matches!(o, BinaryOp::Gt)),
        ("<=", |o| matches!(o, BinaryOp::Le)),
        (">=", |o| matches!(o, BinaryOp::Ge)),
        ("&&", |o| matches!(o, BinaryOp::And)),
        ("||", |o| matches!(o, BinaryOp::Or)),
    ];
    for (text, is_op) in cases {
        let src = format!("fn f() {{ let v = 8 {} 5; }}", text);
        let e = init_of(first_stmt(&src));
        let (op, left, right) = binop_parts(&e);
        assert!(is_op(op), "operator {}", text);
        assert!(matches!(left.kind, ExprKind::Literal(Literal::Int(8))));
        assert!(matches!(right.kind, ExprKind::Literal(Literal::Int(5))));
    }
}

#[test]
fn integer_cast_negation_and_index_parse() {
    match init_of(first_stmt("fn f() { let v = 8 as u64; }")).kind {
        ExprKind::Cast { expr, ty } => {
            assert!(matches!(expr.kind, ExprKind::Literal(Literal::Int(8))));
            assert!(matches!(ty, Type::U64));
        },
        _ => panic!("expected a cast"),
    }
    match init_of(first_stmt("fn f() { let v = -3; }")).kind {
        ExprKind::Unary { op, expr } => {
            assert!(matches!(op, UnaryOp::Neg));
            assert!(matches!(expr.kind, ExprKind::Literal(Literal::Int(3))));
        },
        _ => panic!("expected a negation"),
    }
    match init_of(first_stmt("fn f() { let v = 8[2]; }")).kind {
        ExprKind::Index { expr, index } => {
            assert!(matches!(expr.kind, ExprKind::Literal(Literal::Int(8))));
            assert!(matches!(index.kind, ExprKind::Literal(Literal::Int(2))));
        },
        _ => panic!("expected an index"),
    }
}

#[test]
fn typed_binding_keeps_its_annotation() {
    match first_stmt("fn f() { var count: i64 = 3; }") {
        Stmt::Let(l) => {
            assert_eq!(l.name, "count");
            assert!(l.mutable);
            assert!(matches!(l.ty, Some(Type::I64)));
            assert!(matches!(l.init.kind, ExprKind::Literal(Literal::Int(3))));
        },
        _ => panic!("expected a let"),
    }
    match first_stmt("fn f() { 9; }") {
        Stmt::ExprStmt(e) => assert!(matches!(e.kind, ExprKind::Literal(Literal::Int(9)))),
        _ => panic!("expected an expression statement"),
    }
}

#[test]
fn call_arguments_keep_their_names() {
    match first_stmt("fn f() { g(5); }") {
        Stmt::ExprStmt(e) => match e.kind {
            ExprKind::Call { func, args, .. } => {
                assert_eq!(func, "g");
                assert_eq!(args.len(), 1);
                assert!(matches!(&args[0], CallArg::Positional(x) if matches!(x.kind, ExprKind::Literal(Literal::Int(5)))));
            },
            _ => panic!("expected a call"),
        },
        _ => panic!("expected an expression statement"),
    }
    match first_stmt("fn f() { g(size: 6); }") {
        Stmt::ExprStmt(e) => match e.kind {
            ExprKind::Call { args, .. } => {
                assert_eq!(args.len(), 1);
                assert!(matches!(&args[0], CallArg::Named(n, x) if n == "size" && matches!(x.kind, ExprKind::Literal(Literal::Int(6)))));
            },
            _ => panic!("expected a call"),
        },
        _ => panic!("expected an expression statement"),
    }
}

#[test]
fn struct_literal_fields_and_shorthand() {
    match init_of(first_stmt("fn f() { let p = Point { x: 1 }; }")).kind {
        ExprKind::StructInit { struct_name, fields } => {
            assert_eq!(struct_name, "Point");
            assert_eq!(fields.len(), 1);
            assert_eq!(fields[0].0, "x");
            assert!(matches!(fields[0].1.kind, ExprKind::Literal(Literal::Int(1))));
        },
        _ => panic!("expected a struct literal"),
    }
    match init_of(first_stmt("fn f() { let p = Point { y }; }")).kind {
        ExprKind::StructInit { fields, .. } => {
            assert_eq!(fields.len(), 1);
            assert_eq!(fields[0].0, "y");
            assert!(matches!(&fields[0].1.kind, ExprKind::Ident(n) if n == "y"));
        },
        _ => panic!("expected a struct literal"),
    }
}

#[test]
fn if_expression_keeps_its_branches() {
    match init_of(first_stmt("fn f() { let v = if 1 2 else 3; }")).kind {
        ExprKind::If { cond, then_expr, else_expr, .. } => {
            assert!(matches!(cond.kind, ExprKind::Literal(Literal::Int(1))));
            assert!(matches!(then_expr.kind, ExprKind::Literal(Literal::Int(2))));
            assert!(matches!(else_expr.map(|e| e.kind), Some(ExprKind::Literal(Literal::Int(3)))));
        },
        _ => panic!("expected an if"),
    }
}

#[test]
fn type_text_matches_debug_format() {
    let t = Type::Generic("Pair\"x".to_string(), vec![
        Type::I32,
        Type::Tensor { dtype: Box::new(Type::F32), shape: vec![ShapeDim::Const(3), ShapeDim::Sym("n".to_string()), ShapeDim::Dyn] },
        Type::Privacy(Box::new(Type::U8), PrivacyTag::Differential { eps: "1/2".to_string(), delta: None }),
        Type::ConstIntArray(vec![-4, 7]),
        Type::Ref { mutable: true, inner: Box::new(Type::Slice(Box::new(Type::Bool))) },
    ]);
    assert_eq!(type_debug(&t), format!("{:?}", t));
    assert_eq!(type_debug(&Type::Unit), "Unit");
}

#[test]
fn oversized_integer_is_an_error_but_fits_in_a_rational() {
    let mut p = Parser::new("fn f() { let x = 99999999999999999999; }");
    assert!(p.parse_program().is_err());
    let mut q = Parser::new("#[dp(eps = 1/99999999999999999999)] fn f() {}");
    assert!(q.parse_program().is_ok());
}

#[test]
fn byte_string_literal_keeps_its_bytes() {
    match init_of(first_stmt("fn f() { let b = bytes\"ab\"; }")).kind {
        ExprKind::Literal(Literal::ByteString(b)) => assert_eq!(b, vec![97u8, 98u8]),
        _ => panic!("expected a byte string"),
    }
}

#[test]
fn simple_function_program_parses_with_its_shape() {
    let mut p = Parser::new("fn main() -> i32 { let x: i32 = 10; x } fn g() { y = 2; 3; }");
    let program = p.parse_program().unwrap();
    assert_eq!(program.items.len(), 2);
    match &program.items[0] {
        Item::FnDef(f) => {
            assert_eq!(f.name, "main");
            assert!(f.params.is_empty());
            assert!(matches!(f.return_type, Some(Type::I32)));
            assert_eq!(f.body.stmts.len(), 2);
        },
        _ => panic!("expected a function"),
    }
    match &program.items[1] {
        Item::FnDef(f) => {
            assert_eq!(f.name, "g");
            assert!(f.return_type.is_none());
            assert_eq!(f.body.stmts.len(), 2);
            assert!(matches!(&f.body.stmts[0], Stmt::Assign(_)));
        },
        _ => panic!("expected a function"),
    }
}

#[test]
fn compound_assignment_reads_the_target_again() {
    match first_stmt("fn f() { x += 1; }") {
        Stmt::Assign(a) => {
            assert!(matches!(&a.target.kind, ExprKind::Ident(n) if n == "x"));
            match &a.expr.kind {
                ExprKind::BinaryOp { op, left, right } => {
                    assert!(matches!(op, BinaryOp::Add));
                    assert!(matches!(&left.kind, ExprKind::Ident(n) if n == "x"));
                    assert!(matches!(right.kind, ExprKind::Literal(Literal::Int(1))));
                },
                _ => panic!("expected an operation"),
            }
        },
        _ => panic!("expected an assignment"),
    }
}

#[test]
fn non_ascii_byte_string_names_the_byte() {
    let mut p = Parser::new("fn f() { let b = bytes\"\u{e9}\"; }");
    assert_eq!(p.parse_program().unwrap_err(), "error[BS001]: byte string contains non-ASCII byte 0xE9");
}

#[test]
fn a_failed_privacy_tag_gives_back_its_tokens() {
    // The tag attempt is rolled back, so the parameter list then meets the `<`.
    let mut p = Parser::new("fn f(a: i32<public x) {}");
    let err = p.parse_program().unwrap_err();
    assert!(err.contains("Lt"), "{}", err);
    let mut q = Parser::new("fn f(a: i32<other>) {}");
    assert!(q.parse_program().is_err());
}

#[test]
fn implement_for_names_the_interface_first() {
    match only_item("implement Shape for i32 {}") {
        Item::Implement(d) => {
            assert_eq!(d.interface_name, Some("Shape".to_string()));
            assert!(matches!(d.target_type, Type::I32));
        },
        _ => panic!("expected an implement block"),
    }
}

#[test]
fn reference_parameter_other_than_self_is_refused() {
    let mut parser = Parser::new("fn f(&x: i32) {}");
    assert_eq!(parser.parse_program().unwrap_err(), "Expected 'self' after '&'");
}

#[test]
fn stray_parenthesis_after_implement_header_is_refused() {
    let mut parser = Parser::new("implement Shape for i32 ( ) {}");
    assert_eq!(parser.parse_program().unwrap_err(), "Unexpected '(' after implement header at pos 4");
    let mut parser = Parser::new("implement i32 ( ) {}");
    assert_eq!(parser.parse_program().unwrap_err(), "Unexpected '(' after implement header at pos 2");
}

#[test]
fn braced_use_list_gives_one_item_per_name() {
    let mut parser = Parser::new("use std::{io, fs};");
    let program = parser.parse_program().unwrap();
    assert_eq!(program.items.len(), 2);
    match (&program.items[0], &program.items[1]) {
        (Item::Use(a), Item::Use(b)) => {
            assert_eq!(a.path, "std::io");
            assert_eq!(b.path, "std::fs");
            assert!(a.alias.is_none() && b.alias.is_none());
        }
        _ => panic!("expected two use items"),
    }
}

#[test]
fn pattern_with_single_colon_is_refused() {
    let mut parser = Parser::new("fn f() -> i32 { match a { A:X => 1 } }");
    assert_eq!(parser.parse_program().unwrap_err(), "Unexpected ':' in pattern, expected '::'");
}

#[test]
fn pattern_without_path_is_refused() {
    let mut parser = Parser::new("fn f() -> i32 { match a { X => 1 } }");
    assert_eq!(parser.parse_program().unwrap_err(), "expected '::' after enum name in pattern");
}

#[test]
fn generic_type_with_primitive_arguments() {
    match first_stmt("fn f() { let x: Option<i32, bool> = 1; }") {
        Stmt::Let(l) => match l.ty {
            Some(Type::Generic(name, args)) => {
                assert_eq!(name, "Option");
                assert_eq!(args.len(), 2);
                assert!(matches!(args[0], Type::I32));
                assert!(matches!(args[1], Type::Bool));
            }
            _ => panic!("expected a generic annotation"),
        },
        _ => panic!("expected a let"),
    }
}

#[test]
fn byte_string_escapes_are_decoded_once() {
    match init_of(first_stmt("fn f() { let b = bytes\"\\\\n\"; }")).kind {
        ExprKind::Literal(Literal::ByteString(b)) => assert_eq!(b, vec![0x5Cu8, 0x6Eu8]),
        _ => panic!("expected a byte string"),
    }
    match init_of(first_stmt("fn f() { let b = bytes\"\\n\\t\"; }")).kind {
        ExprKind::Literal(Literal::ByteString(b)) => assert_eq!(b, vec![0x0Au8, 0x09u8]),
        _ => panic!("expected a byte string"),
    }
}

#[test]
fn self_reference_and_typed_parameter() {
    match only_item("fn f(&mut self, x: i32) {}") {
        Item::FnDef(f) => {
            assert_eq!(f.params.len(), 2);
            assert_eq!(f.params[0].name, "self");
            assert!(matches!(&f.params[0].ty, Type::Ref { mutable: true, inner } if matches!(**inner, Type::SelfType)));
            assert_eq!(f.params[1].name, "x");
            assert!(matches!(f.params[1].ty, Type::I32));
        }
        _ => panic!("expected a function"),
    }
}

#[test]
fn implement_interface_for_a_named_type() {
    match only_item("implement Shape for Circle {}") {
        Item::Implement(d) => {
            assert_eq!(d.interface_name, Some("Shape".to_string()));
            assert!(matches!(&d.target_type, Type::Struct(n) if n == "Circle"));
        }
        _ => panic!("expected an implement block"),
    }
}

#[test]
fn use_list_with_a_longer_path_and_an_alias() {
    let mut parser = Parser::new("use a::b::{X, Y as Z};");
    let program = parser.parse_program().unwrap();
    assert_eq!(program.items.len(), 2);
    match (&program.items[0], &program.items[1]) {
        (Item::Use(x), Item::Use(y)) => {
            assert_eq!(x.path, "a::b::X");
            assert!(x.alias.is_none());
            assert_eq!(y.path, "a::b::Y");
            assert_eq!(y.alias, Some("Z".to_string()));
        }
        _ => panic!("expected two use items"),
    }
}
