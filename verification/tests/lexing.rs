use xiyi_compiler::lexer::{tokenize_source, unescape_string, Lexer};
use xiyi_compiler::token::Token;

#[test]
fn lexes_a_let_statement() {
    let tokens = tokenize_source("let x: i32 = 10;").unwrap();
    let kinds: Vec<Token> = tokens.iter().map(|t| t.0).collect();
    assert_eq!(
        kinds,
        vec![Token::Let, Token::Ident, Token::Colon, Token::I32, Token::Eq, Token::Integer, Token::Semicolon]
    );
    assert_eq!(tokens[1].1, "x");
    assert_eq!(tokens[5].1, "10");
}

#[test]
fn skips_whitespace_and_comments() {
    let tokens = tokenize_source("  // note\n fn /* block */ f").unwrap();
    let kinds: Vec<Token> = tokens.iter().map(|t| t.0).collect();
    assert_eq!(kinds, vec![Token::Fn, Token::Ident]);
}

#[test]
fn string_literal_value_is_unescaped_contents() {
    let tokens = tokenize_source("\"a\\nb\"").unwrap();
    assert_eq!(tokens.len(), 1);
    assert_eq!(tokens[0].0, Token::String);
    assert_eq!(tokens[0].1, "a\nb");
}

#[test]
fn unescape_handles_escapes() {
    assert_eq!(unescape_string("tab\\there"), "tab\there");
    assert_eq!(unescape_string("q\\\"x"), "q\"x");
    assert_eq!(unescape_string("back\\\\slash"), "back\\slash");
    assert_eq!(unescape_string("plain"), "plain");
}

#[test]
fn reports_unrecognized_character_with_position() {
    let err = tokenize_source("let a = 1;\n  $").unwrap_err();
    assert_eq!(err.message, "unrecognized character '$' (U+0024)");
    assert_eq!(err.line, 2);
    assert_eq!(err.column, 3);
    assert_eq!(err.byte_offset, 13);
    assert_eq!(err.to_string(), "unrecognized character '$' (U+0024) (line 2, column 3)");
}

#[test]
fn lexer_struct_gives_same_tokens() {
    let mut lexer = Lexer::new("fn main() {}");
    let tokens = lexer.tokenize().unwrap();
    assert_eq!(tokens.len(), 6);
    assert_eq!(tokens[0].0, Token::Fn);
    assert_eq!(tokens[1].1, "main");
}

#[test]
fn skipping_lexer_passes_over_unknown_characters() {
    let mut l = xiyi_compiler::skipping_lexer::Lexer::new("let x = 1 $ \"a\\n\";");
    let toks = l.tokenize();
    let kinds: Vec<Token> = toks.iter().map(|t| t.0.clone()).collect();
    assert_eq!(kinds, vec![Token::Let, Token::Ident, Token::Eq, Token::Integer, Token::String, Token::Semicolon]);
    assert_eq!(toks[4].1, "\"a\\n\"");
}
