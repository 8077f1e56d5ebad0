use xiyi_compiler::intrinsic::{all_intrinsic_names, get_intrinsic, is_intrinsic};
use xiyi_compiler::rational::{parse_rational, rational_eq, rational_le, rational_min};

#[test]
fn parses_rationals() {
    assert_eq!(parse_rational("1/2"), Some((1, 2)));
    assert_eq!(parse_rational(" 3 "), Some((3, 1)));
    assert_eq!(parse_rational("0.25"), Some((25, 100)));
    assert_eq!(parse_rational("-1.5"), Some((-15, 10)));
    assert_eq!(parse_rational("1/0"), None);
    assert_eq!(parse_rational("abc"), None);
}

#[test]
fn compares_rationals() {
    assert!(rational_le("1/4", "1/2"));
    assert!(!rational_le("1/2", "1/4"));
    assert!(rational_eq("1/2", "0.5"));
    assert!(rational_eq("2/4", "1/2"));
    assert_eq!(rational_min("1/2", "1/4"), "1/4");
    assert_eq!(rational_min("1/4", "0.25"), "1/4");
}

#[test]
fn intrinsic_table() {
    assert!(is_intrinsic("print"));
    assert!(!is_intrinsic("no_such_builtin"));
    let p = get_intrinsic("print").unwrap();
    assert_eq!(p.link_name, "xiyi::io::print");
    assert!(!p.allowed_in_model);
    let names = all_intrinsic_names();
    assert_eq!(names.len(), 7);
    assert!(names.contains(&"panic"));
}
