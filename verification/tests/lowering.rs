use xiyi_compiler::calc::Calc;
use xiyi_compiler::elaborate::Elaborator;
use xiyi_compiler::ast::{BinaryOp, Literal, Type};
use xiyi_compiler::hir::{HirExprKind, HirProgram, HirStmt};
use xiyi_compiler::mir::{MirPlace, MirRvalue, MirStmt, MirTerminator};
use xiyi_compiler::mir_builder::MirBuilder;
use xiyi_compiler::parser::Parser;
use xiyi_compiler::sema::TypeChecker;
use xiyi_compiler::simplify::Simplify;

fn hir(src: &str) -> HirProgram {
    let mut parser = Parser::new(src);
    let program = parser.parse_program().unwrap();
    let mut checker = TypeChecker::new();
    checker.check_program(&program).unwrap()
}

#[test]
fn lowers_constant_function() {
    let h = hir("fn main() -> i32 { 1 + 2 }");
    assert!(MirBuilder::can_build(&h));
    let mir = MirBuilder::build(&h);
    assert_eq!(mir.functions.len(), 1);
    let f = &mir.functions[0];
    assert_eq!(f.name, "main");
    assert!(f.blocks.len() >= 1);
    for b in &f.blocks {
        assert!(matches!(b.terminator, MirTerminator::Return(_)));
    }
    assert!(f.source_map.is_empty());
}

#[test]
fn let_binds_a_named_local() {
    let h = hir("fn main() -> i32 { let y: i32 = 5; 7 }");
    assert!(MirBuilder::can_build(&h));
    let mir = MirBuilder::build(&h);
    let f = &mir.functions[0];
    assert_eq!(f.locals.len(), 1);
    assert_eq!(f.locals[0].name.as_deref(), Some("y"));
    assert!(!f.locals[0].mutability);
}

#[test]
fn identifiers_cannot_be_lowered_yet() {
    let h = hir("fn main() -> i32 { let x: i32 = 10; x }");
    assert!(!MirBuilder::can_build(&h));
}

#[test]
fn calls_are_listed_once() {
    let h = hir("fn main() { print(\"a\"); print(\"b\"); }");
    assert!(MirBuilder::can_build(&h));
    let mir = MirBuilder::build(&h);
    assert_eq!(mir.intrinsics_used, vec!["print".to_string()]);
}

#[test]
fn while_loop_opens_blocks() {
    let h = hir("fn main() { while true { break; } }");
    assert!(MirBuilder::can_build(&h));
    let mir = MirBuilder::build(&h);
    assert!(mir.functions[0].blocks.len() >= 4);
}

#[test]
fn passes_without_rules_keep_programs() {
    let h = hir("fn main() -> i32 { 1 }");
    let h = Elaborator::elaborate(h);
    assert_eq!(h.fns.len(), 1);
    let mir = Simplify::run(MirBuilder::build(&h));
    assert_eq!(mir.functions.len(), 1);
    let folded = Calc::fold_rvalue(&MirRvalue::Unit);
    assert!(matches!(folded, MirRvalue::Unit));
}

#[test]
fn hir_keeps_statements_and_expressions() {
    let h = hir("fn f() -> i32 { let x: i32 = 2; x * 3 }");
    let body = &h.fns[0].body;
    assert_eq!(body.stmts.len(), 2);
    match &body.stmts[0] {
        HirStmt::Let { name, init, mutable, persist, .. } => {
            assert_eq!(name, "x");
            assert!(!*mutable && !*persist);
            assert!(matches!(init.kind, HirExprKind::Literal(Literal::Int(2))));
            assert!(matches!(init.ty, Type::I32));
        }
        _ => panic!("expected a let"),
    }
    match &body.stmts[1] {
        HirStmt::Expr { expr, .. } => match &expr.kind {
            HirExprKind::BinaryOp { op, left, right } => {
                assert!(matches!(op, BinaryOp::Mul));
                assert!(matches!(&left.kind, HirExprKind::Ident(n) if n == "x"));
                assert!(matches!(right.kind, HirExprKind::Literal(Literal::Int(3))));
            }
            _ => panic!("expected a multiplication"),
        },
        _ => panic!("expected an expression statement"),
    }
}

#[test]
fn while_loop_blocks_all_end_in_return() {
    let h = hir("fn main() { while true { break; } }");
    assert!(MirBuilder::can_build(&h));
    let mir = MirBuilder::build(&h);
    let blocks = &mir.functions[0].blocks;
    assert_eq!(blocks.len(), 5);
    assert!(matches!(blocks[0].terminator, MirTerminator::Return(Some(MirRvalue::Unit))));
    assert!(matches!(blocks[1].terminator, MirTerminator::Return(Some(MirRvalue::Unit))));
    assert!(matches!(blocks[2].terminator, MirTerminator::Return(Some(MirRvalue::Unit))));
    assert!(matches!(blocks[3].terminator, MirTerminator::Return(None)));
}

#[test]
fn lets_lower_to_assignments_in_the_first_block() {
    let h = hir("fn main() { let x: i32 = 1; let y: i32 = 2 + 3; }");
    assert!(MirBuilder::can_build(&h));
    let mir = MirBuilder::build(&h);
    let f = &mir.functions[0];
    assert_eq!(f.blocks[0].stmts.len(), 2);
    match &f.blocks[0].stmts[0] {
        MirStmt::Assign { place: MirPlace::Local(0), rvalue: MirRvalue::Literal(Literal::Int(1)) } => {},
        other => panic!("unexpected {:?}", other),
    }
    match &f.blocks[0].stmts[1] {
        MirStmt::Assign { place: MirPlace::Local(1), rvalue: MirRvalue::BinaryOp { op: BinaryOp::Add, .. } } => {},
        other => panic!("unexpected {:?}", other),
    }
}
