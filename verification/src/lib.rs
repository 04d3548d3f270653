//! A small SQL subset: a lexer and recursive-descent parser that build an
//! abstract syntax tree, an analyzer that lowers the tree into a logical
//! query plan, and a combinator-style typed parser for `select` and `insert`
//! statements.
pub mod scan;
pub mod lexer;
pub mod ast;
pub mod parser;
pub mod analyzer;
pub mod parse_tree;
pub mod query_parser;
