//! A permissive, fail-fast HTML parser.
//!
//! The parser turns a complete in-memory source text into an immutable tree
//! of document nodes (elements, text runs, comments, doctype declarations and
//! opaque "foreign" spans), or reports the first error together with its
//! 1-based line and column.
//!
//! Every production of the grammar has a mathematical counterpart in
//! [`grammar`], stated over a sequence of bytes; the executable parser is
//! proved to return exactly what those spec functions describe.

pub mod ast;
pub mod chars;
pub mod grammar;
pub mod messages;
pub mod parse_error;
pub mod parser;
pub mod serialize;
pub mod wf;

pub use ast::DocumentMode;
pub use ast::HTMLAttribute;
pub use ast::HTMLDocument;
pub use ast::HTMLNode;
pub use parse_error::ParseError;
pub use parser::parse;
