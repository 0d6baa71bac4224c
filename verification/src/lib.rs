//! Converts Markdown source text into a fully materialized document tree.
//!
//! An outside producer turns the text into a flat sequence of structural
//! events; the verified frame-stack reducer in [`parser`] rebuilds the
//! nested tree from it, and [`ast`] holds the tree and its mathematical
//! model. The general laws of the reduction are proved in [`laws`].

pub mod ast;
pub mod events;
pub mod laws;
pub mod parser;
pub mod scan;

pub use ast::AstNode;
pub use scan::parse_markdown;
pub use events::Construct;
pub use events::MdEvent;
pub use parser::Frame;
pub use parser::build_node;
pub use parser::parse_events;
