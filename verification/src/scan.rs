//! The lexical scanner boundary.
//!
//! Turning raw text into the event stream is the job of an outside
//! tokenizer, treated as a black box: the stream it yields for a given text
//! is given a name, and everything the builder does with that stream is
//! verified for every value of it.

use vstd::prelude::*;

use crate::event::{Event, ElementEnd};
use crate::pos::TextPos;
use crate::parse::Error;
use xmlparser::Token as XmlToken;
use xmlparser::ElementEnd as XmlElementEnd;
use xmlparser::EntityDefinition as XmlEntityDefinition;
use xmlparser::Error as XmlError;
use xmlparser::StreamError as XmlStreamError;

verus! {

#[verifier::external_type_specification]
#[verifier::external_body]
pub struct ExXmlToken<'a>(XmlToken<'a>);

#[verifier::external_type_specification]
#[verifier::external_body]
pub struct ExXmlStreamError(XmlStreamError);

#[verifier::external_type_specification]
#[verifier::external_body]
pub struct ExXmlError(XmlError);

/// The event stream the scanner yields for this text, or the lexical error
/// it stops at. The scanner reads nothing but the text, so the outcome is a
/// function of the text alone.
pub uninterp spec fn scan_of(text: Seq<char>) -> Result<Seq<Event>, Error>;

/// An unknown-token failure at the given position.
fn unknown_at(row: u32, col: u32) -> (r: Error)
    ensures
        r@ == crate::parse::ErrorV::UnknownToken(TextPos { row, col }),
{
    Error::UnknownToken(TextPos::new(row, col))
}

/// Relies on `xmlparser::Token`: moves an element-start or attribute
/// token's names, value and span offsets out.
#[verifier::external_body]
fn start_event_of(t: XmlToken) -> (r: Option<Event>)
{
    match t {
        XmlToken::ElementStart { prefix, local, span } => Some(Event::ElementStart { prefix: prefix.as_str().to_owned(), local: local.as_str().to_owned(), start: span.start() }),
        XmlToken::Attribute { prefix, local, value, span } => Some(Event::Attribute { prefix: prefix.as_str().to_owned(), local: local.as_str().to_owned(), value: value.as_str().to_owned(), pos: span.start(), value_pos: value.start() }),
        _ => None,
    }
}

/// Relies on `xmlparser::Token`: moves an element-end token's form, names
/// and span offset out.
#[verifier::external_body]
fn end_event_of(t: XmlToken) -> (r: Option<Event>)
{
    match t {
        XmlToken::ElementEnd { end: XmlElementEnd::Open, span } => Some(Event::ElementEnd { end: ElementEnd::Open, pos: span.start() }),
        XmlToken::ElementEnd { end: XmlElementEnd::Close(p, l), span } => Some(Event::ElementEnd { end: ElementEnd::Close(p.as_str().to_owned(), l.as_str().to_owned()), pos: span.start() }),
        XmlToken::ElementEnd { end: XmlElementEnd::Empty, span } => Some(Event::ElementEnd { end: ElementEnd::Empty, pos: span.start() }),
        _ => None,
    }
}

/// Relies on `xmlparser::Token`: moves a text, CDATA or DTD token's content
/// out. Comments, processing instructions, declarations and
/// externally-defined entities yield no event.
#[verifier::external_body]
fn misc_event_of(t: XmlToken) -> (r: Option<Event>)
{
    match t {
        XmlToken::Text { text } => Some(Event::Text { text: text.as_str().to_owned(), pos: text.start() }),
        XmlToken::Cdata { text, .. } => Some(Event::Cdata { text: text.as_str().to_owned(), pos: text.start() }),
        XmlToken::DtdStart { .. } => Some(Event::DtdStart),
        XmlToken::EntityDeclaration { name, definition: XmlEntityDefinition::EntityValue(v), .. } => Some(Event::EntityDefinition { name: name.as_str().to_owned(), value: v.as_str().to_owned() }),
        _ => None,
    }
}

/// Relies on `xmlparser::Token`: the event a scanner token yields, if any.
#[verifier::external_body]
fn event_of(t: XmlToken) -> (r: Option<Event>)
{
    match start_event_of(t) {
        Some(e) => Some(e),
        None => match end_event_of(t) {
            Some(e) => Some(e),
            None => misc_event_of(t),
        },
    }
}

/// Relies on `xmlparser::StreamError`: moves a bad-character failure and
/// its own position out.
#[verifier::external_body]
fn char_fault_of(se: XmlStreamError) -> (r: Option<Error>)
{
    match se {
        XmlStreamError::NonXmlChar(c, p) => Some(Error::NonXmlChar(c, TextPos::new(p.row, p.col))),
        XmlStreamError::InvalidChar(actual, expected, p) => Some(Error::InvalidChar(expected, actual, TextPos::new(p.row, p.col))),
        XmlStreamError::InvalidCharMultiple(actual, _, p) => Some(Error::InvalidChar2("one of the expected characters", actual, TextPos::new(p.row, p.col))),
        _ => None,
    }
}

/// Relies on `xmlparser::StreamError`: moves a bad-quote, bad-space or
/// missing-string failure and its own position out.
#[verifier::external_body]
fn delim_fault_of(se: XmlStreamError) -> (r: Option<Error>)
{
    match se {
        XmlStreamError::InvalidQuote(c, p) => Some(Error::InvalidChar2("a quote", c, TextPos::new(p.row, p.col))),
        XmlStreamError::InvalidSpace(c, p) => Some(Error::InvalidChar2("a whitespace", c, TextPos::new(p.row, p.col))),
        XmlStreamError::InvalidString(s, p) => Some(Error::InvalidString(s, TextPos::new(p.row, p.col))),
        _ => None,
    }
}

/// Relies on `xmlparser::StreamError`: tells the positionless variants
/// apart; the scanner's outer error supplies the row and column.
#[verifier::external_body]
fn plain_fault_of(se: XmlStreamError, row: u32, col: u32) -> (r: Error)
{
    match se {
        XmlStreamError::UnexpectedEndOfStream => Error::UnexpectedEndOfStream,
        XmlStreamError::InvalidName => Error::InvalidName(TextPos::new(row, col)),
        XmlStreamError::InvalidReference => Error::MalformedEntityReference(TextPos::new(row, col)),
        XmlStreamError::InvalidExternalID => Error::InvalidString("a valid ExternalID", TextPos::new(row, col)),
        XmlStreamError::InvalidCharacterData => Error::InvalidCharacterData(TextPos::new(row, col)),
        _ => unknown_at(row, col),
    }
}

/// Relies on `xmlparser::StreamError`: hands a lexical failure on, placed
/// at its own position where it carries one, else at the outer one.
#[verifier::external_body]
fn stream_fault(se: XmlStreamError, row: u32, col: u32) -> (r: Error)
{
    match char_fault_of(se) {
        Some(e) => e,
        None => match delim_fault_of(se) {
            Some(e) => e,
            None => plain_fault_of(se, row, col),
        },
    }
}

/// Relies on `xmlparser::Error`: every lexical failure wraps a stream
/// error, except an unknown token, which only carries its position.
#[verifier::external_body]
fn outer_fault(e: XmlError) -> (r: Error)
{
    match e {
        XmlError::UnknownToken(p) => unknown_at(p.row, p.col),
        XmlError::InvalidDeclaration(se, p) | XmlError::InvalidComment(se, p) | XmlError::InvalidPI(se, p) | XmlError::InvalidDoctype(se, p) | XmlError::InvalidEntity(se, p) | XmlError::InvalidElement(se, p) | XmlError::InvalidAttribute(se, p) | XmlError::InvalidCdata(se, p) | XmlError::InvalidCharData(se, p) => stream_fault(se, p.row, p.col),
    }
}

/// Relies on `xmlparser::Tokenizer` (0.13): it yields the document's tokens
/// in order and stops at the first lexical error. The stream depends on the
/// text alone, so the whole outcome carries the name [`scan_of`].
#[verifier::external_body]
pub fn scan_text(text: &str) -> (r: Result<Vec<Event>, Error>)
    ensures
        (match r {
            Ok(v) => scan_of(text@) == Ok::<Seq<Event>, Error>(v@),
            Err(e) => scan_of(text@) == Err::<Seq<Event>, Error>(e),
        }),
{
    let mut out = Vec::new();
    for t in xmlparser::Tokenizer::from(text) {
        match t {
            Ok(tok) => match event_of(tok) {
                Some(e) => out.push(e),
                None => {},
            },
            Err(e) => return Err(outer_fault(e)),
        }
    }
    Ok(out)
}

} // verus!
