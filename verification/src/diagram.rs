//! The tree of a diagram: data flows and sequences of messages.

use vstd::prelude::*;

verus! {

/// A diagram: its source text and its elements.
#[derive(Debug, PartialEq)]
pub struct AST {
    pub content: String,
    pub elements: Vec<ElementSpan>,
}

/// One element of a diagram, with its place in the source, its
/// subelements and its attributes.
#[derive(Debug, PartialEq)]
pub struct ElementSpan {
    /// The source document; none where it is that of the parent.
    pub source: Option<String>,
    pub position: TextPosition,
    pub element: Element,
    pub children: Vec<ElementSpan>,
    pub attrs: Vec<Attribute>,
}

/// Where an element stands in the source.
#[derive(Debug, Clone, PartialEq)]
pub enum TextPosition {
    BoundingBox { start: CursorPosition, end: CursorPosition },
    Slice(Slice),
}

#[derive(Debug, Clone, PartialEq)]
pub struct CursorPosition {
    pub line: usize,
    pub column: usize,
}

#[derive(Debug, Clone, PartialEq)]
pub struct Slice {
    pub start: usize,
    pub end: usize,
}

#[derive(Debug, Clone, PartialEq)]
pub enum Element {
    DataFlow(DataflowElement),
    Sequence(SequenceDiagramElement),
}

#[derive(Debug, Clone, PartialEq)]
pub enum DataflowElement {
    /// A set of data.
    Dataset { id: usize },
    /// What takes data in and gives data out: a function, a program.
    Function { id: usize },
    Connection { from: usize, to: usize },
    /// An element that holds elements.
    Container,
    /// An element that decides which connection to take.
    Decision,
    /// A text or block that is not well formed.
    Error(String),
}

#[derive(Debug, Clone, PartialEq)]
pub enum SequenceDiagramElement {
    /// A message from one participant to another.
    Message { from: String, to: String, message: String, meta: Option<MetaData> },
    /// A state that can be checked for the participants.
    CheckedState { name: String, participants: Vec<String> },
}

impl SequenceDiagramElement {
    /// The message `message` from `from` to `to`, without further data.
    pub fn message(from: &str, to: &str, message: &str) -> (r: Self)
        ensures
            (r matches SequenceDiagramElement::Message { from: f, to: t, message: m, meta } && f@
                == from@ && t@ == to@ && m@ == message@ && meta.is_none()),
    {
        SequenceDiagramElement::Message {
            from: String::from_str(from),
            to: String::from_str(to),
            message: String::from_str(message),
            meta: None,
        }
    }
}

#[derive(Debug, Clone, PartialEq)]
pub struct MetaData {}

#[derive(Debug, Clone, PartialEq)]
pub enum Attribute {
    Link(String),
    Position,
}

} // verus!
