//! A resilient, streaming HTML tokenizer and an arena-based DOM tree builder.
//!
//! The [`Parser`] runs through a document and tells an observer, through
//! the trait [`IsParser`], of every start tag, end tag and run of text. The
//! [`Dom`] is such an observer: it builds a tree that can be walked, pruned
//! and written out again as HTML, every element with its end tag.

pub mod attribute;
pub mod dom;
pub mod error;
pub mod fidelity;
pub mod machine;
pub mod machine_proofs;
pub mod parser;
pub mod tag;
pub mod text;
pub mod traits;
pub mod tree;
pub mod tree_proofs;

pub use attribute::Attribute;
pub use dom::{Dom, Node, NodeData, NodeElement, Store};
pub use error::{Error, ParseError};
pub use parser::{IsParser, Parser};
pub use tag::Tag;
pub use traits::ToHTML;
pub use tree::NodeId;
