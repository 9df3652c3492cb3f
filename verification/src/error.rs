use vstd::prelude::*;

verus! {

/// The ways in which an operation of this library can fail.
#[derive(Clone, Copy, Debug, PartialEq, Eq, Structural)]
pub enum Error {
    /// An element name that is not among the recognised ones.
    UnknownTag,
    /// Bytes that were to be read as text are not valid UTF-8.
    InvalidUtf8,
    /// A node was to be inserted under an id that names no live node.
    InvalidParent,
    /// An id that names no live node was used to reach a node.
    NodeNotFound,
}

/// A failed parse: what went wrong, and how many bytes had been consumed by then.
#[derive(Clone, Copy, Debug, PartialEq, Eq, Structural)]
pub struct ParseError {
    /// What went wrong.
    pub error: Error,
    /// How many bytes had been consumed; for an unknown tag, those that
    /// stand before the tag.
    pub consumed: usize,
}

} // verus!
