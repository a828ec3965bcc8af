//! Parsing and animated evaluation of a small expression language.
//!
//! Source text is split into tokens (`lexer`), tokens are parsed into a tree
//! that remembers the spacing around every operator and parenthesis
//! (`parser`), and the tree is evaluated into a value together with the
//! sequence of text frames that show the expression collapsing into that
//! value (`animate`). `text` holds the string primitives the other modules
//! share, and `laws` states properties that relate several of them.

pub mod animate;
pub mod laws;
pub mod lexer;
pub mod parser;
pub mod text;
