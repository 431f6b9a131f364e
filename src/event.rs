//! The XML events that the engine consumes, each with its place in the document.
use vstd::prelude::*;

verus! {

/// A place in the document, for diagnostics.
#[derive(Clone, Copy, Debug, PartialEq, Eq, Structural)]
pub struct Position {
    pub line: u64,
    pub column: u64,
}

/// One attribute of a start tag.
#[derive(Clone, Debug, PartialEq, Eq)]
pub struct Attribute {
    pub name: String,
    pub value: String,
}

/// One XML event.
#[derive(Clone, Debug, PartialEq, Eq)]
pub enum Event {
    /// A start tag, with its local name and attributes in document order.
    Start { name: String, attributes: Vec<Attribute> },
    /// The end tag that closes the innermost open element.
    End,
    /// Character data.
    Text { text: String },
}

/// An event and the place where it stands.
#[derive(Clone, Debug, PartialEq, Eq)]
pub struct Located {
    pub event: Event,
    pub position: Position,
}

} // verus!
