//! A namespace-aware XML document tree for e-book content.
//!
//! The crate parses XML text into an arena of nodes addressed by integer
//! ids in document order, resolving namespaces, decoding character and
//! entity references, and normalizing whitespace along the way.

mod chars;
mod scan;

pub mod epub;
pub mod error;
pub mod event;
pub mod message;
pub mod parse;
pub mod pos;
pub mod text;
pub mod tree;

pub use pos::TextPos;
pub use event::{Event, ElementEnd};
pub use tree::{Document, NodeData, NodeKind, Namespaces, NamespaceEntry, AttributeData,
    ExpandedNameIndexed, ShortRange};
pub use parse::{Error as ParseError, ParsingOptions, Context, TagNameSpan, TempAttributeData};
pub use text::{TextBuffer, Entity};
pub use epub::{Metadata, Chapter};
