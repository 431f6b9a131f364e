//! What can go wrong while parsing a document, and where.
use vstd::prelude::*;
use crate::decode::LeafKind;
use crate::event::Position;

verus! {

/// Why a parse failed.
#[derive(Clone, Debug, PartialEq, Eq)]
pub enum ErrorKind {
    /// A required attribute is absent.
    MissingAttribute { element: String, attribute: String },
    /// An attribute that the schema does not list; `expected` lists those it does.
    UnexpectedAttribute { element: String, attribute: String, expected: Vec<String> },
    /// A required child slot was never filled.
    MissingChild { element: String, child: String },
    /// Required text content is absent.
    MissingText { element: String },
    /// A child tag that no slot or alternative accepts; `expected` lists the
    /// names that would have been accepted.
    UnexpectedElement { element: String, found: String, expected: Vec<String> },
    /// Non-blank text in an element that has no text slot.
    UnexpectedText { element: String },
    /// Text that does not decode as the kind its slot asks for.
    ValueDecode { text: String, kind: LeafKind },
    /// The events end before the element is closed.
    UnexpectedEnd,
    /// The element's first event is not a start tag.
    NotAStartTag,
    /// The document nests deeper than the parse allows.
    DepthExceeded,
}

/// A failure and the place where it was found.
#[derive(Clone, Debug, PartialEq, Eq)]
pub struct Error {
    pub position: Position,
    pub kind: ErrorKind,
}

/// `ErrorKind` with its name lists as sequences.
pub enum ErrorKindModel {
    MissingAttribute { element: String, attribute: String },
    UnexpectedAttribute { element: String, attribute: String, expected: Seq<String> },
    MissingChild { element: String, child: String },
    MissingText { element: String },
    UnexpectedElement { element: String, found: String, expected: Seq<String> },
    UnexpectedText { element: String },
    ValueDecode { text: String, kind: LeafKind },
    UnexpectedEnd,
    NotAStartTag,
    DepthExceeded,
}

pub struct ErrorModel {
    pub position: Position,
    pub kind: ErrorKindModel,
}

impl View for ErrorKind {
    type V = ErrorKindModel;

    open spec fn view(&self) -> ErrorKindModel {
        match *self {
            ErrorKind::MissingAttribute { element, attribute } => ErrorKindModel::MissingAttribute {
                element,
                attribute,
            },
            ErrorKind::UnexpectedAttribute { element, attribute, expected } =>
                ErrorKindModel::UnexpectedAttribute { element, attribute, expected: expected@ },
            ErrorKind::MissingChild { element, child } => ErrorKindModel::MissingChild {
                element,
                child,
            },
            ErrorKind::MissingText { element } => ErrorKindModel::MissingText { element },
            ErrorKind::UnexpectedElement { element, found, expected } =>
                ErrorKindModel::UnexpectedElement { element, found, expected: expected@ },
            ErrorKind::UnexpectedText { element } => ErrorKindModel::UnexpectedText { element },
            ErrorKind::ValueDecode { text, kind } => ErrorKindModel::ValueDecode { text, kind },
            ErrorKind::UnexpectedEnd => ErrorKindModel::UnexpectedEnd,
            ErrorKind::NotAStartTag => ErrorKindModel::NotAStartTag,
            ErrorKind::DepthExceeded => ErrorKindModel::DepthExceeded,
        }
    }
}

impl View for Error {
    type V = ErrorModel;

    open spec fn view(&self) -> ErrorModel {
        ErrorModel { position: self.position, kind: self.kind@ }
    }
}

} // verus!
