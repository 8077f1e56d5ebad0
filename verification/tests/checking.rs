use xiyi_compiler::ast::{Block, EnumDef, EnumVariant, Expr, ExprKind, FnDef, GenericParam, Item, MatchArm, MatchExpr, Param, Pattern, Program, Stmt, Type};
use xiyi_compiler::parser::Parser;
use xiyi_compiler::sema::TypeChecker;

fn parse(src: &str) -> Program {
    let mut parser = Parser::new(src);
    parser.parse_program().unwrap()
}

fn check(src: &str) -> Result<(), String> {
    let program = parse(src);
    let mut checker = TypeChecker::new();
    checker.check_program(&program).map(|_| ())
}

#[test]
fn accepts_arithmetic_function() {
    assert!(check("fn add(a: i32, b: i32) -> i32 { a + b }").is_ok());
}

#[test]
fn rejects_wrong_return_type() {
    let err = check("fn f() -> bool { 1 }").unwrap_err();
    assert!(err.contains("expected return type"));
}

#[test]
fn private_wins_a_join() {
    assert!(check("fn f(a: i32<private>, b: i32<public>) -> i32<private> { a + b }").is_ok());
    assert!(check("fn g(a: i32<private>, b: i32<public>) -> i32<private> { b + a }").is_ok());
}

#[test]
fn private_result_is_not_public() {
    let err = check("fn f(a: i32<private>, b: i32<public>) -> i32<public> { a + b }").unwrap_err();
    assert!(err.contains("privacy label mismatch"));
}

#[test]
fn public_gives_way_in_a_join() {
    assert!(check("fn f(a: i32<public>, b: i32<public>) -> i32<public> { a + b }").is_ok());
}

#[test]
fn model_without_forward_is_refused() {
    let err = check("model M { fn helper(self) -> i32 { 1 } }").unwrap_err();
    assert_eq!(err, "model 'M' must define a 'forward' function");
}

#[test]
fn model_with_forward_is_accepted() {
    assert!(check("model M { fn forward(self, x: i32) -> i32 { x } }").is_ok());
}

#[test]
fn model_parameter_of_unknown_struct_is_refused() {
    let err = check("model M { fn forward(self, x: Missing) -> i32 { 1 } }").unwrap_err();
    assert_eq!(err, "undefined struct type: Missing");
}

#[test]
fn const_type_mismatch_is_refused() {
    let err = check("const C: bool = 1;").unwrap_err();
    assert!(err.starts_with("const type mismatch: expected Bool, got I32"));
}

#[test]
fn checked_program_counts_items() {
    let program = parse("struct P { x: i32 } fn f() -> i32 { 1 } fn g() -> i32 { 2 }");
    let mut checker = TypeChecker::new();
    let hir = checker.check_program(&program).unwrap();
    assert_eq!(hir.fns.len(), 2);
    assert_eq!(hir.structs.len(), 1);
    assert_eq!(hir.models.len(), 0);
}

#[test]
fn collect_model_def_then_check_model_def() {
    let program = parse("model M { fn forward(self, x: i32) -> i32 { x } }");
    let mut checker = TypeChecker::new();
    match &program.items[0] {
        xiyi_compiler::ast::Item::ModelDef(m) => {
            assert!(checker.collect_model_def(m).is_ok());
            assert!(checker.check_model_def(m).is_ok());
        }
        _ => panic!("expected a model"),
    }
}

#[test]
fn check_model_def_needs_forward() {
    let program = parse("model N { fn step(self) -> i32 { 1 } }");
    let mut checker = TypeChecker::new();
    match &program.items[0] {
        xiyi_compiler::ast::Item::ModelDef(m) => {
            let _ = checker.collect_model_def(m);
            assert_eq!(checker.check_model_def(m).unwrap_err(), "model 'N' must define a 'forward' function");
        }
        _ => panic!("expected a model"),
    }
}

fn body_of(src: &str) -> Vec<xiyi_compiler::ast::Stmt> {
    let program = parse(src);
    match program.items.into_iter().next() {
        Some(xiyi_compiler::ast::Item::FnDef(f)) => f.body.stmts,
        _ => panic!("expected a function"),
    }
}

#[test]
fn let_binding_is_visible_afterwards() {
    let stmts = body_of("fn f() { let x: bool = true; x; }");
    let mut checker = TypeChecker::new();
    assert!(matches!(checker.check_stmt(&stmts[0]), Ok(xiyi_compiler::ast::Type::Unit)));
    assert!(matches!(checker.check_stmt(&stmts[1]), Ok(xiyi_compiler::ast::Type::Bool)));
}

#[test]
fn unknown_name_is_refused() {
    let stmts = body_of("fn f() { y; }");
    let mut checker = TypeChecker::new();
    assert_eq!(checker.check_stmt(&stmts[0]).unwrap_err(), "undefined variable or constant: y");
}

#[test]
fn assignment_to_a_literal_is_refused() {
    let err = check("fn f() { 1 = 2; }").unwrap_err();
    assert!(err.starts_with("invalid assignment target"));
}

#[test]
fn while_in_model_needs_constant_bound() {
    let err = check("model M { fn forward(self, n: i32) -> i32 { while n > 0 { } n } }").unwrap_err();
    assert!(err.starts_with("error[MD004]"));
}

#[test]
fn match_pattern_of_another_enum_is_refused() {
    let err = check("enum A { X } enum B { Y } fn f() -> i32 { let a = A::X; match a { B::Y => 1 } }").unwrap_err();
    assert_eq!(err, "pattern enum name mismatch");
}

#[test]
fn match_on_unknown_variant_is_refused() {
    let err = check("enum A { X } fn f() -> i32 { let a = A::X; match a { A::Z => 1 } }").unwrap_err();
    assert_eq!(err, "enum A has no variant Z");
}

#[test]
fn match_on_a_parameter_of_enum_type_is_refused() {
    // Parameter types are taken as written, and a bare name is a struct type there.
    let err = check("enum A { X } fn f(a: A) -> i32 { match a { A::X => 1 } }").unwrap_err();
    assert_eq!(err, "match expression must be on an enum type");
}

#[test]
fn match_with_fitting_patterns_is_accepted() {
    assert!(check("enum A { X, Y } fn f() -> i32 { let a = A::Y; match a { A::X => 1, A::Y => 2 } }").is_ok());
}

#[test]
fn conv2d_output_follows_the_window_formula() {
    // (32 + 2 * 1 - 3) / 2 + 1 = 16
    assert!(check("fn f(x: Tensor<f32, [3, 32, 32]>) -> Tensor<f32, [8, 16, 16]> { conv2d(x, in: 3, out: 8, kernel: 3, stride: 2, padding: 1) }").is_ok());
    let err = check("fn f(x: Tensor<f32, [3, 32, 32]>) -> Tensor<f32, [8, 15, 15]> { conv2d(x, in: 3, out: 8, kernel: 3, stride: 2, padding: 1) }").unwrap_err();
    assert!(err.starts_with("expected return type"));
}

#[test]
fn conv2d_keeps_the_batch_dimension() {
    // (28 - 5) / 1 + 1 = 24
    assert!(check("fn f(x: Tensor<f32, [4, 1, 28, 28]>) -> Tensor<f32, [4, 6, 24, 24]> { conv2d(x, in: 1, out: 6, kernel: 5) }").is_ok());
}

#[test]
fn conv2d_kernel_larger_than_input_is_refused() {
    let err = check("fn f(x: Tensor<f32, [3, 8, 8]>) -> Tensor<f32, [8, 1, 1]> { conv2d(x, in: 3, out: 8, kernel: 10) }").unwrap_err();
    assert_eq!(err, "conv2d output height non-positive");
}

#[test]
fn conv2d_needs_three_or_four_dimensions() {
    let err = check("fn f(x: Tensor<f32, [8, 8]>) -> Tensor<f32, [8, 8]> { conv2d(x, in: 3, out: 8, kernel: 3) }").unwrap_err();
    assert_eq!(err, "conv2d expects 3D [C, H, W] or 4D [B, C, H, W] tensor");
}

#[test]
fn max_pool2d_stride_defaults_to_kernel() {
    // (32 - 2) / 2 + 1 = 16
    assert!(check("fn f(x: Tensor<f32, [3, 32, 32]>) -> Tensor<f32, [3, 16, 16]> { max_pool2d(x, kernel: 2) }").is_ok());
    // (32 - 2) / 1 + 1 = 31
    assert!(check("fn f(x: Tensor<f32, [3, 32, 32]>) -> Tensor<f32, [3, 31, 31]> { max_pool2d(x, kernel: 2, stride: 1) }").is_ok());
}

#[test]
fn linear_replaces_the_last_dimension() {
    assert!(check("fn f(x: Tensor<f32, [4, 10]>) -> Tensor<f32, [4, 5]> { linear(x, in: 10, out: 5) }").is_ok());
    let err = check("fn f(x: Tensor<f32, [4, 10]>) -> Tensor<f32, [4, 5]> { linear(x, in: 9, out: 5) }").unwrap_err();
    assert_eq!(err, "shape mismatch in linear: input last dim 10 does not match 'in' value 9");
}

#[test]
fn embedding_adds_a_float_dimension() {
    assert!(check("fn f(x: Tensor<i32, [7]>) -> Tensor<f32, [7, 16]> { embedding(x, num_embeddings: 100, embedding_dim: 16) }").is_ok());
}

#[test]
fn flatten_multiplies_constant_dimensions() {
    assert!(check("fn f(x: Tensor<f32, [2, 3, 4]>) -> Tensor<f32, [24]> { flatten(x) }").is_ok());
    let err = check("fn f(x: Tensor<f32, [2, 3, 4]>) -> Tensor<f32, [23]> { flatten(x) }").unwrap_err();
    assert!(err.starts_with("expected return type"));
}

#[test]
fn forward_sensitivity_and_return_type_are_filed() {
    // Functions inside a model block take no attributes in the source, so the attribute is
    // added to the parsed tree.
    let mut program = parse("model M { fn forward(self, x: i32) -> bool { true } }");
    let mut checker = TypeChecker::new();
    match &mut program.items[0] {
        xiyi_compiler::ast::Item::ModelDef(m) => {
            m.functions[0].attributes.push(xiyi_compiler::ast::Attribute {
                name: "sensitivity".to_string(),
                args: vec![xiyi_compiler::ast::AttributeArg::KeyValue(
                    "const".to_string(),
                    Box::new(xiyi_compiler::ast::AttributeArg::Rational("1/2".to_string())),
                )],
            });
            assert!(checker.collect_model_def(m).is_ok());
            assert_eq!(checker.model_sensitivities.len(), 1);
            assert_eq!(checker.model_sensitivities[0].0, "M");
            assert_eq!(checker.model_sensitivities[0].1, "1/2");
            assert_eq!(checker.model_return_types.len(), 1);
            assert!(matches!(checker.model_return_types[0].1, xiyi_compiler::ast::Type::Bool));
        }
        _ => panic!("expected a model"),
    }
}

#[test]
fn model_attributes_inside_the_block_are_refused() {
    let mut parser = xiyi_compiler::parser::Parser::new("model M { #[sensitivity(const = 1/2)] fn forward(self) -> i32 { 1 } }");
    assert_eq!(
        parser.parse_program().unwrap_err(),
        "Expected field (var/let) or function (fn) definition in model block"
    );
}

#[test]
fn print_gives_i32_outside_models() {
    assert!(check("fn f() -> i32 { print(1) }").is_ok());
    let err = check("model M { fn forward(self, x: i32) -> i32 { print(x) } }").unwrap_err();
    assert_eq!(err, "error[MD001]: side-effect not allowed in model block");
}

#[test]
fn panic_takes_one_message() {
    let err = check("fn f() { panic(\"a\", \"b\"); }").unwrap_err();
    assert_eq!(err, "`panic` expects exactly 1 argument (a message)");
}

#[test]
fn from_utf8_unchecked_takes_one_argument() {
    let err = check("fn f() { from_utf8_unchecked(); }").unwrap_err();
    assert_eq!(err, "`from_utf8_unchecked` expects exactly 1 argument");
}

#[test]
fn one_type_variable_binds_once_per_call() {
    assert!(check("fn pair<T>(a: T, b: T) -> T { a } fn f() -> i32 { pair(1, 2) }").is_ok());
    let err = check("fn pair<T>(a: T, b: T) -> T { a } fn f() -> i32 { pair(1, true) }").unwrap_err();
    assert!(err.starts_with("type mismatch in call to `pair`: parameter `b`"));
}

#[test]
fn for_in_model_needs_constant_range() {
    let err = check("model M { fn forward(self, n: i32) -> i32 { for i in 0..n { } n } }").unwrap_err();
    assert!(err.starts_with("error[MD005]"));
    assert!(check("model M { fn forward(self, n: i32) -> i32 { for i in 0..4 { } n } }").is_ok());
}

#[test]
fn simple_let_then_name_is_accepted_with_its_function() {
    let program = parse("fn main() -> i32 { let x: i32 = 10; x }");
    let mut checker = TypeChecker::new();
    let hir = checker.check_program(&program).unwrap();
    assert_eq!(hir.fns.len(), 1);
    assert_eq!(hir.fns[0].name, "main");
}

#[test]
fn let_annotation_mismatch_names_both_types() {
    assert_eq!(check("fn main() -> i32 { let x: bool = 10; x }").unwrap_err(), "type mismatch: expected Bool, got I32");
}

#[test]
fn model_without_forward_message() {
    assert_eq!(check("model M {}").unwrap_err(), "model 'M' must define a 'forward' function");
}

#[test]
fn negation_needs_a_signed_type() {
    assert!(check("fn main() -> i64 { let y: i64 = -(1 as i64); y }").is_ok());
    let err = check("fn main() { let y = -(1 as u32); }").unwrap_err();
    assert!(err.starts_with("cannot apply unary `-` to U32"));
}

#[test]
fn indexing_a_string_gives_a_byte() {
    assert!(check("fn main() -> u8 { \"ab\"[0] }").is_ok());
    assert_eq!(check("fn main() -> u8 { \"ab\"[1.5] }").unwrap_err(), "index must be an integer type, got F32");
}

#[test]
fn undefined_name_message() {
    assert_eq!(check("fn main() -> i32 { y }").unwrap_err(), "undefined variable or constant: y");
}

#[test]
fn match_binding_takes_the_type_argument_of_its_parameter() {
    use_match_program(Type::Bool, true);
    use_match_program(Type::I32, false);
}

fn use_match_program(ret: Type, ok: bool) {
    let res = Item::EnumDef(EnumDef {
        name: "Res".to_string(),
        generic_params: vec![
            GenericParam::Type { name: "T".to_string(), bounds: vec![] },
            GenericParam::Type { name: "E".to_string(), bounds: vec![] },
        ],
        variants: vec![
            EnumVariant { name: "Good".to_string(), ty: Some(Type::Struct("T".to_string())) },
            EnumVariant { name: "Bad".to_string(), ty: Some(Type::Struct("E".to_string())) },
        ],
    });
    let m = Expr {
        id: 3,
        kind: ExprKind::Match(MatchExpr {
            cond: Box::new(Expr { id: 1, kind: ExprKind::Ident("r".to_string()) }),
            arms: vec![MatchArm {
                pattern: Pattern::EnumVariantWithBinding {
                    enum_name: "Res".to_string(),
                    variant_name: "Bad".to_string(),
                    binding: "e".to_string(),
                },
                expr: Box::new(Expr { id: 2, kind: ExprKind::Ident("e".to_string()) }),
            }],
        }),
    };
    let f = Item::FnDef(FnDef {
        attributes: vec![],
        name: "f".to_string(),
        generic_params: vec![],
        params: vec![Param { name: "r".to_string(), ty: Type::Generic("Res".to_string(), vec![Type::I32, Type::Bool]) }],
        return_type: Some(ret),
        body: Block { stmts: vec![Stmt::ExprStmt(m)] },
    });
    let program = Program { items: vec![res, f] };
    let mut checker = TypeChecker::new();
    assert_eq!(checker.check_program(&program).is_ok(), ok);
}

#[test]
fn assignment_of_another_type_names_both() {
    assert_eq!(check("fn main() { var x: i32 = 1; x = true; }").unwrap_err(), "type mismatch in assignment: expected I32, got Bool");
    assert!(check("fn main() { var x: i64 = 1; x = 2; }").is_ok());
}

#[test]
fn unknown_type_name_is_reported() {
    let c = TypeChecker::new();
    assert_eq!(c.resolve_type(&Type::Struct("Nope".to_string())).unwrap_err(), "undefined type: Nope");
    assert!(matches!(c.resolve_type(&Type::I32), Ok(Type::I32)));
}

#[test]
fn enum_variant_arguments_are_counted() {
    assert_eq!(check("enum A { X } fn f() { let a = A::X(1); }").unwrap_err(), "variant takes no arguments");
    assert_eq!(check("enum A { X(i32) } fn f() { let a = A::X(); }").unwrap_err(), "variant expects 1 argument");
    assert_eq!(check("enum A { X } fn f() { let a = A::Z(); }").unwrap_err(), "enum A has no variant Z");
}

#[test]
fn while_condition_must_be_bool() {
    assert_eq!(check("fn f() { while 1 { } }").unwrap_err(), "while condition must be bool");
    assert!(check("fn f() { while true { } }").is_ok());
    assert!(check("fn f() { loop { break; } }").is_ok());
}

#[test]
fn binary_operation_on_a_variable_and_a_literal() {
    assert!(check("fn f() { let x: i32 = 1; let y = x + 2; }").is_ok());
    assert!(check("fn f() { let x: i32 = 1; let y = x + true; }").is_err());
    assert!(check("fn f() { let x: bool = true; let y = x && false; }").is_ok());
}

#[test]
fn if_over_variables_needs_equal_branch_types() {
    assert!(check("fn f() { let c: bool = true; let x: i32 = 1; let y = if c x else 2; }").is_ok());
    assert!(check("fn f() { let c: bool = true; let x: i32 = 1; let y = if c x else true; }").is_err());
    assert!(check("fn f() { let c: bool = true; lack if c 1; }").is_err());
}

#[test]
fn implement_block_functions_are_checked() {
    assert_eq!(check("implement i32 { fn f() { let x: bool = 1; } }").unwrap_err(), "type mismatch: expected Bool, got I32");
}

#[test]
fn block_expressions_are_checked() {
    assert_eq!(check("fn f() { let y = { let x: bool = 1; }; }").unwrap_err(), "type mismatch: expected Bool, got I32");
    assert!(check("fn f() { let y: i32 = { let x: i32 = 1; x }; }").is_ok());
}

#[test]
fn returned_value_is_checked() {
    assert_eq!(check("fn f() { return y; }").unwrap_err(), "undefined variable or constant: y");
    assert!(check("fn f() { let x: i32 = 1; return x; }").is_ok());
}

#[test]
fn match_binding_takes_the_generic_argument_by_position() {
    let src_ok = "enum Res<T, E> { Good(T), Bad(E) } fn f(r: Res<i32, bool>) -> bool { match r { Res::Bad(e) => e } }";
    assert!(check(src_ok).is_ok());
    let src_bad = "enum Res<T, E> { Good(T), Bad(E) } fn f(r: Res<i32, bool>) -> i32 { match r { Res::Bad(e) => e } }";
    assert!(check(src_bad).is_err());
}

#[test]
fn model_functions_are_checked() {
    assert_eq!(check("model M { fn forward() { let x: bool = 1; } }").unwrap_err(), "type mismatch: expected Bool, got I32");
}

#[test]
fn match_on_a_non_enum_is_refused() {
    assert_eq!(check("fn f() -> i32 { let x: i32 = 1; match x { A::B => 1 } }").unwrap_err(), "match expression must be on an enum type");
}

#[test]
fn if_condition_must_be_bool() {
    assert_eq!(check("fn f() { let x: i32 = 1; let y = if x 1 else 2; }").unwrap_err(), "if condition must be bool");
}
