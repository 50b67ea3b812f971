//! Core of a source-code formatter and analyzer built on a lossless concrete
//! syntax tree: a format IR with a printer that decides where lines break, a
//! comment-attachment engine driven by token trivia, and an analyzer that
//! dispatches rule matches and drains diagnostics in source order, honouring
//! suppression comments.

pub mod analyze;
pub mod builders;
pub mod comments;
pub mod context;
pub mod format_element;
pub mod formatter;
pub mod js;
pub mod lexer;
pub mod lossless_tree_sink;
pub mod parser;
pub mod printer;
pub mod suppression;
pub mod syntax;
pub mod text;
pub mod tree;
