//! A Ruby performance linter: detects common performance anti-patterns in
//! Ruby source, explains them, and rewrites the safe ones in place.

pub mod ast;
pub mod ast_helpers;
pub mod analyzer;
pub mod ast_visitor;
pub mod cli;
pub mod comment_directives;
pub mod config;
pub mod file_traverser;
pub mod fix;
pub mod offense;
pub mod output;
pub mod prism_tree;
pub mod scanner;
pub mod text;
