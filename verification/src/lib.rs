pub mod assemble;
pub mod ast;
pub mod calc;
pub mod elaborate;
pub mod hir;
pub mod hir_builder;
pub mod intrinsic;
pub mod lexer;
pub mod mir;
pub mod mir_builder;
pub mod parser;
pub mod properties;
pub mod rational;
pub mod sema;
pub mod show;
pub mod simplify;
pub mod skipping_lexer;
pub mod text;
pub mod token;
