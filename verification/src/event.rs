//! The lexical event stream consumed by the tree builder.
//!
//! The low-level scanner is an external collaborator: it turns raw text into
//! an ordered sequence of these events. The builder consumes them one at a
//! time and never looks ahead.

use vstd::prelude::*;

verus! {

/// How an element tag ends.
#[derive(Debug, Clone, PartialEq, Eq)]
pub enum ElementEnd {
    /// `>`: the element stays open and becomes the current parent.
    Open,
    /// `</prefix:local>`: a close tag with its qualified name.
    Close(String, String),
    /// `/>`: the element closes itself.
    Empty,
}

/// One lexical parse event.
///
/// Byte offsets point into the source text and are only used to compute a
/// line/column position when an error is reported.
#[derive(Debug, Clone, PartialEq, Eq)]
pub enum Event {
    /// `<prefix:local`, with the byte offset of the `<`.
    ElementStart { prefix: String, local: String, start: usize },
    /// One attribute of the element currently being opened. `pos` is the
    /// byte offset of the qualified name, `value_pos` the byte offset of the
    /// raw value.
    Attribute { prefix: String, local: String, value: String, pos: usize, value_pos: usize },
    /// The end of an element tag, with the byte offset of the token.
    ElementEnd { end: ElementEnd, pos: usize },
    /// A raw text run, with the byte offset of its first byte.
    Text { text: String, pos: usize },
    /// A CDATA section: its content is taken verbatim.
    Cdata { text: String, pos: usize },
    /// An entity declared in the document's internal subset.
    EntityDefinition { name: String, value: String },
    /// The start of an internal subset (`<!DOCTYPE ... [`).
    DtdStart,
}

} // verus!
