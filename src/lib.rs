//! Compacts documents of a GraphQL-like query language into their shortest
//! equivalent text, either from source text (token stream) or from a
//! document tree.
pub mod ast;
pub mod lexer;
pub mod pieces;
pub mod query;
pub mod relex;
pub mod text;
pub mod tree;
pub mod tree_pieces;
