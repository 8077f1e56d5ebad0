use xiyi_compiler::assemble::{add_module_items, item_name, merge_with_conflict_check, module_file_order};
use xiyi_compiler::ast::Item;
use xiyi_compiler::parser::Parser;

fn items(src: &str) -> Vec<Item> {
    let mut parser = Parser::new(src);
    parser.parse_program().unwrap().items
}

#[test]
fn item_names() {
    let v = items("fn f() {} struct S { a: i32 } use a::b;");
    assert_eq!(item_name(&v[0]), Some("f"));
    assert_eq!(item_name(&v[1]), Some("S"));
    assert_eq!(item_name(&v[2]), None);
}

#[test]
fn merge_puts_library_first() {
    let lib = items("fn lib_fn() {}");
    let user = items("fn main() {}");
    let program = merge_with_conflict_check(lib, user, "main.xiyi").unwrap();
    assert_eq!(program.items.len(), 2);
    assert_eq!(item_name(&program.items[0]), Some("lib_fn"));
    assert_eq!(item_name(&program.items[1]), Some("main"));
}

#[test]
fn merge_refuses_a_clash() {
    let lib = items("fn print_all() {}");
    let user = items("fn print_all() {}");
    let err = merge_with_conflict_check(lib, user, "main.xiyi").unwrap_err();
    assert_eq!(
        err,
        "error: `print_all` in main.xiyi conflicts with a standard library definition of the same name."
    );
}

#[test]
fn modules_with_distinct_names_are_added() {
    let mut all = Vec::new();
    let mut defined_in = Vec::new();
    assert!(add_module_items(&mut all, &mut defined_in, "io", items("fn read() {}")).is_ok());
    assert!(add_module_items(&mut all, &mut defined_in, "math", items("fn sqrt() {}")).is_ok());
    assert_eq!(all.len(), 2);
    assert_eq!(defined_in.len(), 2);
}

#[test]
fn duplicate_library_name_is_refused() {
    let mut all = Vec::new();
    let mut defined_in = Vec::new();
    assert!(add_module_items(&mut all, &mut defined_in, "io", items("fn read() {}")).is_ok());
    let err = add_module_items(&mut all, &mut defined_in, "fs", items("fn read() {}")).unwrap_err();
    assert_eq!(err, "duplicate definition `read` in stdlib: defined in both `io` and `fs`");
}

#[test]
fn duplicate_within_one_module_names_that_module_twice() {
    let mut all = Vec::new();
    let mut defined_in = Vec::new();
    let err = add_module_items(&mut all, &mut defined_in, "io", items("fn read() {} fn read() {}")).unwrap_err();
    assert_eq!(err, "duplicate definition `read` in stdlib: defined in both `io` and `io`");
}

#[test]
fn library_files_are_read_in_name_order_with_lib_last() {
    let names: Vec<String> = vec!["lib.xiyi", "math.xiyi", "README.md", "io.xiyi"].into_iter().map(String::from).collect();
    let order = module_file_order(&names);
    assert_eq!(order, vec!["io.xiyi".to_string(), "math.xiyi".to_string(), "lib.xiyi".to_string()]);
}
