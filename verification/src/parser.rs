//! The parser's building blocks: its errors, the nodes of the syntax tree,
//! the operators it recognizes and the Pratt folding of expressions by their
//! binding powers.
pub mod error;
pub mod literals;
pub mod nodes;
pub mod ops;
pub mod pratt;

pub use error::ParserError;
pub use nodes::Node;
