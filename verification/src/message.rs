//! Human-readable messages for parsing errors, with their 1-based
//! line/column position.

use vstd::prelude::*;

use crate::pos::TextPos;
use crate::parse::{Error, ErrorV};

verus! {

/// The decimal digits of `n`, most significant first.
pub open spec fn spec_dec(n: u32) -> Seq<char>
    decreases n,
{
    if n < 10 {
        seq![((n + 48) as u8) as char]
    } else {
        spec_dec(n / 10).push(((n % 10 + 48) as u8) as char)
    }
}

/// A position rendered as `row:col`.
pub open spec fn spec_pos_str(p: TextPos) -> Seq<char> {
    spec_dec(p.row) + seq![':'] + spec_dec(p.col)
}

/// Appends the decimal digits of `n` to the buffer.
fn push_dec(n: u32, out: &mut String)
    ensures
        final(out)@ == old(out)@ + spec_dec(n),
    decreases n,
{
    if n >= 10 {
        push_dec(n / 10, out);
    }
    let d = (n % 10) as u8 + 48;
    out.push(d as char);
    proof {
        if n < 10 {
            assert(old(out)@ + spec_dec(n) =~= old(out)@.push(((n + 48) as u8) as char));
        } else {
            assert(old(out)@ + spec_dec(n) =~= (old(out)@ + spec_dec(n / 10)).push(
                ((n % 10 + 48) as u8) as char,
            ));
        }
    }
}

/// Renders a position as `row:col`.
pub fn pos_string(p: TextPos) -> (r: String)
    ensures
        r@ == spec_pos_str(p),
{
    let mut s = String::new();
    push_dec(p.row, &mut s);
    s.push(':');
    push_dec(p.col, &mut s);
    proof {
        assert(s@ =~= spec_pos_str(p));
    }
    s
}

/// Concatenates a literal and a payload.
fn cat2(a: &str, b: &str) -> (r: String)
    ensures
        r@ == a@ + b@,
{
    let mut s = a.to_owned();
    s.append(b);
    s
}

/// Concatenates a literal, a payload and a tail.
fn cat3(a: &str, b: &str, c: &str) -> (r: String)
    ensures
        r@ == a@ + b@ + c@,
{
    let mut s = a.to_owned();
    s.append(b);
    s.append(c);
    s
}

/// Concatenates a literal, a payload, a second literal and a payload.
fn cat4(a: &str, b: &str, c: &str, d: &str) -> (r: String)
    ensures
        r@ == a@ + b@ + c@ + d@,
{
    let mut s = a.to_owned();
    s.append(b);
    s.append(c);
    s.append(d);
    s
}

/// Concatenates two literals around a payload, a second payload and a tail.
fn cat5(a: &str, b: &str, c: &str, d: &str, e: &str) -> (r: String)
    ensures
        r@ == a@ + b@ + c@ + d@ + e@,
{
    let mut s = a.to_owned();
    s.append(b);
    s.append(c);
    s.append(d);
    s.append(e);
    s
}

/// A single character rendered as a one-character string.
fn char_string(c: char) -> (r: String)
    ensures
        r@ == seq![c],
{
    let mut s = String::new();
    s.push(c);
    proof {
        assert(s@ =~= seq![c]);
    }
    s
}

/// The message of every error, over its model: the failure in words, with
/// the names involved and the `row:col` position.
pub open spec fn spec_message(e: ErrorV) -> Seq<char> {
    match e {
        ErrorV::InvalidXmlPrefixUri(p) => "'xml' namespace prefix mapped to wrong URI at "@
            + spec_pos_str(p),
        ErrorV::UnexpectedXmlUri(p) => "the 'xml' namespace URI is used for not 'xml' prefix at "@
            + spec_pos_str(p),
        ErrorV::UnexpectedXmlnsUri(p) => "the 'xmlns' URI is used at "@ + spec_pos_str(p)
            + ", but it must not be declared"@,
        ErrorV::InvalidElementNamePrefix(p) => "the 'xmlns' prefix is used at "@ + spec_pos_str(p)
            + ", but it must not be"@,
        ErrorV::DuplicatedNamespace(name, p) => "namespace '"@ + name + "' at "@ + spec_pos_str(p)
            + " is already defined"@,
        ErrorV::UnknownNamespace(name, p) => "an unknown namespace prefix '"@ + name + "' at "@
            + spec_pos_str(p),
        ErrorV::UnexpectedCloseTag(expected, actual, p) => "expected '"@ + expected
            + "' tag, not '"@ + actual + "' at "@ + spec_pos_str(p),
        ErrorV::UnexpectedEntityCloseTag(p) => "unexpected close tag at "@ + spec_pos_str(p),
        ErrorV::UnknownEntityReference(name, p) => "unknown entity reference '"@ + name + "' at "@
            + spec_pos_str(p),
        ErrorV::MalformedEntityReference(p) => "malformed entity reference at "@ + spec_pos_str(p),
        ErrorV::InvalidAttributeValue(p) => "unescaped '<' found at "@ + spec_pos_str(p),
        ErrorV::DuplicatedAttribute(name, p) => "attribute '"@ + name + "' at "@ + spec_pos_str(p)
            + " is already defined"@,
        ErrorV::NoRootNode => "the document does not have a root node"@,
        ErrorV::UnclosedRootNode => "the root node was opened but never closed"@,
        ErrorV::UnexpectedDeclaration(p) => "unexpected XML declaration at "@ + spec_pos_str(p),
        ErrorV::AttributesLimitReached => "more than 2^32 attributes were parsed"@,
        ErrorV::NamespacesLimitReached => "more than 2^16 unique namespaces were parsed"@,
        ErrorV::NodesLimitReached => "the node limit was reached"@,
        ErrorV::InvalidName(p) => "invalid name token at "@ + spec_pos_str(p),
        ErrorV::NonXmlChar(c, p) => "a non-XML character '"@ + seq![c] + "' found at "@
            + spec_pos_str(p),
        ErrorV::InvalidChar(expected, actual, p) => "expected '"@ + seq![expected as char]
            + "' not '"@ + seq![actual as char] + "' at "@ + spec_pos_str(p),
        ErrorV::InvalidChar2(expected, actual, p) => "expected "@ + expected + " not '"@
            + seq![actual as char] + "' at "@ + spec_pos_str(p),
        ErrorV::InvalidString(expected, p) => "expected '"@ + expected + "' at "@
            + spec_pos_str(p),
        ErrorV::InvalidCharacterData(p) => "']]>' at "@ + spec_pos_str(p)
            + " is not allowed inside a character data"@,
        ErrorV::UnknownToken(p) => "unknown token at "@ + spec_pos_str(p),
        ErrorV::UnexpectedEndOfStream => "unexpected end of stream"@,
        ErrorV::NodeNotFound(name) => "required '"@ + name + "' tag or attribute not found"@,
    }
}

impl Error {
    /// The error in words, with the names involved and its `row:col`
    /// position.
    #[verifier::rlimit(100)]
    #[verifier::spinoff_prover]
    pub fn message(&self) -> (r: String)
        ensures
            r@ == spec_message(self@),
    {
        match self {
            Error::InvalidXmlPrefixUri(p) => cat2(
                "'xml' namespace prefix mapped to wrong URI at ",
                pos_string(*p).as_str(),
            ),
            Error::UnexpectedXmlUri(p) => cat2(
                "the 'xml' namespace URI is used for not 'xml' prefix at ",
                pos_string(*p).as_str(),
            ),
            Error::UnexpectedXmlnsUri(p) => cat3(
                "the 'xmlns' URI is used at ",
                pos_string(*p).as_str(),
                ", but it must not be declared",
            ),
            Error::InvalidElementNamePrefix(p) => cat3(
                "the 'xmlns' prefix is used at ",
                pos_string(*p).as_str(),
                ", but it must not be",
            ),
            Error::DuplicatedNamespace(name, p) => cat5(
                "namespace '",
                name.as_str(),
                "' at ",
                pos_string(*p).as_str(),
                " is already defined",
            ),
            Error::UnknownNamespace(name, p) => cat4(
                "an unknown namespace prefix '",
                name.as_str(),
                "' at ",
                pos_string(*p).as_str(),
            ),
            Error::UnexpectedCloseTag(expected, actual, p) => {
                let head = cat5(
                    "expected '",
                    expected.as_str(),
                    "' tag, not '",
                    actual.as_str(),
                    "' at ",
                );
                cat2(head.as_str(), pos_string(*p).as_str())
            },
            Error::UnexpectedEntityCloseTag(p) => cat2(
                "unexpected close tag at ",
                pos_string(*p).as_str(),
            ),
            Error::UnknownEntityReference(name, p) => cat4(
                "unknown entity reference '",
                name.as_str(),
                "' at ",
                pos_string(*p).as_str(),
            ),
            Error::MalformedEntityReference(p) => cat2(
                "malformed entity reference at ",
                pos_string(*p).as_str(),
            ),
            Error::InvalidAttributeValue(p) => cat2(
                "unescaped '<' found at ",
                pos_string(*p).as_str(),
            ),
            Error::DuplicatedAttribute(name, p) => cat5(
                "attribute '",
                name.as_str(),
                "' at ",
                pos_string(*p).as_str(),
                " is already defined",
            ),
            Error::NoRootNode => "the document does not have a root node".to_owned(),
            Error::UnclosedRootNode => "the root node was opened but never closed".to_owned(),
            Error::UnexpectedDeclaration(p) => cat2(
                "unexpected XML declaration at ",
                pos_string(*p).as_str(),
            ),
            Error::AttributesLimitReached => "more than 2^32 attributes were parsed".to_owned(),
            Error::NamespacesLimitReached => "more than 2^16 unique namespaces were parsed".to_owned(),
            Error::NodesLimitReached => "the node limit was reached".to_owned(),
            Error::InvalidName(p) => cat2("invalid name token at ", pos_string(*p).as_str()),
            Error::NonXmlChar(c, p) => cat4(
                "a non-XML character '",
                char_string(*c).as_str(),
                "' found at ",
                pos_string(*p).as_str(),
            ),
            Error::InvalidChar(expected, actual, p) => {
                let head = cat5(
                    "expected '",
                    char_string(*expected as char).as_str(),
                    "' not '",
                    char_string(*actual as char).as_str(),
                    "' at ",
                );
                cat2(head.as_str(), pos_string(*p).as_str())
            },
            Error::InvalidChar2(expected, actual, p) => {
                let head = cat5(
                    "expected ",
                    *expected,
                    " not '",
                    char_string(*actual as char).as_str(),
                    "' at ",
                );
                cat2(head.as_str(), pos_string(*p).as_str())
            },
            Error::InvalidString(expected, p) => cat4(
                "expected '",
                *expected,
                "' at ",
                pos_string(*p).as_str(),
            ),
            Error::InvalidCharacterData(p) => cat3(
                "']]>' at ",
                pos_string(*p).as_str(),
                " is not allowed inside a character data",
            ),
            Error::UnknownToken(p) => cat2("unknown token at ", pos_string(*p).as_str()),
            Error::UnexpectedEndOfStream => "unexpected end of stream".to_owned(),
            Error::NodeNotFound(name) => cat3(
                "required '",
                *name,
                "' tag or attribute not found",
            ),
        }
    }
}

} // verus!
