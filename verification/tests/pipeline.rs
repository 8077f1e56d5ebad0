use xiyi_compiler::lexer::Lexer;
use xiyi_compiler::parser::Parser;
use xiyi_compiler::sema::TypeChecker;

#[test]
fn test_lexer_basic() {
    let input = "fn main() { let x: i32 = 10; }";
    let mut lexer = Lexer::new(input);
    let tokens = lexer.tokenize().unwrap();
    assert_eq!(tokens.len(), 13);
}

#[test]
fn test_parse_basic() {
    let input = "fn main() -> i32 { let x: i32 = 10; x }";
    let mut parser = Parser::new(input);
    let program = parser.parse_program();
    assert!(program.is_ok());
}

#[test]
fn test_type_check_ok() {
    let input = "fn main() -> i32 { let x: i32 = 10; x }";
    let mut parser = Parser::new(input);
    let program = parser.parse_program().unwrap();
    let mut checker = TypeChecker::new();
    assert!(checker.check_program(&program).is_ok());
}

#[test]
fn test_type_check_type_mismatch() {
    let input = "fn main() -> i32 { let x: bool = 10; x }";
    let mut parser = Parser::new(input);
    let program = parser.parse_program().unwrap();
    let mut checker = TypeChecker::new();
    assert!(checker.check_program(&program).is_err());
}
