//! The tree builder: consumes the lexical event stream one event at a time
//! and assembles the document, resolving namespaces, normalizing text and
//! enforcing well-formedness. Every failure aborts the parse at once; no
//! partial document is ever returned.

use vstd::prelude::*;

use crate::pos::{TextPos, spec_text_pos, spec_sat_add, text_pos_at, sat_add};
use crate::text::{Entity, EntityV, entities_view, TextFault, spec_norm_attr, spec_text_content,
    spec_text_special, normalize_attribute, normalize_text};
use crate::event::{Event, ElementEnd};
use crate::tree::{Document, DocumentV, Namespaces, NamespacesV, NamespaceEntry, NsV, NodeData,
    NodeV, NodeKind, NodeKindV, AttributeData, AttrV, ExpandedNameIndexed, ExpandedNameV,
    ShortRange, spec_ns_push, spec_ns_push_ref, spec_ns_exists, spec_expanded_eq, spec_anc,
    spec_end, NS_XML_PREFIX, NS_XML_URI, NS_XMLNS_URI, XMLNS};
use crate::chars::{str_eq, chars_vec};

verus! {

/// A list of all possible parsing errors.
#[derive(Debug, Clone, PartialEq, Eq, Hash)]
pub enum Error {
    /// The `xmlns:xml` attribute must have the fixed XML namespace URI.
    InvalidXmlPrefixUri(TextPos),
    /// Only the `xmlns:xml` attribute may have the XML namespace URI.
    UnexpectedXmlUri(TextPos),
    /// The namespace-declaration URI must not be declared at all.
    UnexpectedXmlnsUri(TextPos),
    /// `xmlns` cannot be used as an element prefix.
    InvalidElementNamePrefix(TextPos),
    /// A namespace was already declared on this element.
    DuplicatedNamespace(String, TextPos),
    /// An element or attribute has an unknown qualified-name prefix.
    UnknownNamespace(String, TextPos),
    /// A close tag does not match the innermost open element: expected
    /// qualified name, actual qualified name, position.
    UnexpectedCloseTag(String, String, TextPos),
    /// A close tag appeared where no element was open at this level.
    UnexpectedEntityCloseTag(TextPos),
    /// A reference to an entity the internal subset does not define.
    UnknownEntityReference(String, TextPos),
    /// A `&` that does not introduce a well-formed reference.
    MalformedEntityReference(TextPos),
    /// An attribute value holds an unescaped `<`.
    InvalidAttributeValue(TextPos),
    /// Two attributes resolve to the same (namespace, local name) pair.
    DuplicatedAttribute(String, TextPos),
    /// The document has no root element.
    NoRootNode,
    /// The root element was opened but never closed.
    UnclosedRootNode,
    /// An XML declaration outside the document start.
    UnexpectedDeclaration(TextPos),
    /// More attributes than the document-wide ceiling allows.
    AttributesLimitReached,
    /// More namespace declarations than the ceiling allows.
    NamespacesLimitReached,
    /// More nodes than the configured ceiling allows.
    NodesLimitReached,
    /// An invalid name token.
    InvalidName(TextPos),
    /// A character that XML does not allow.
    NonXmlChar(char, TextPos),
    /// An unexpected character: expected, actual, position.
    InvalidChar(u8, u8, TextPos),
    /// An unexpected character: description of the expected one, actual,
    /// position.
    InvalidChar2(&'static str, u8, TextPos),
    /// An expected string is missing.
    InvalidString(&'static str, TextPos),
    /// `]]>` inside character data.
    InvalidCharacterData(TextPos),
    /// A token the scanner does not know.
    UnknownToken(TextPos),
    /// The stream ended earlier than expected.
    UnexpectedEndOfStream,
    /// A required tag or attribute was not found by a consumer query.
    NodeNotFound(&'static str),
}

/// The mathematical shape of an [`Error`].
#[verifier::ext_equal]
pub enum ErrorV {
    InvalidXmlPrefixUri(TextPos),
    UnexpectedXmlUri(TextPos),
    UnexpectedXmlnsUri(TextPos),
    InvalidElementNamePrefix(TextPos),
    DuplicatedNamespace(Seq<char>, TextPos),
    UnknownNamespace(Seq<char>, TextPos),
    UnexpectedCloseTag(Seq<char>, Seq<char>, TextPos),
    UnexpectedEntityCloseTag(TextPos),
    UnknownEntityReference(Seq<char>, TextPos),
    MalformedEntityReference(TextPos),
    InvalidAttributeValue(TextPos),
    DuplicatedAttribute(Seq<char>, TextPos),
    NoRootNode,
    UnclosedRootNode,
    UnexpectedDeclaration(TextPos),
    AttributesLimitReached,
    NamespacesLimitReached,
    NodesLimitReached,
    InvalidName(TextPos),
    NonXmlChar(char, TextPos),
    InvalidChar(u8, u8, TextPos),
    InvalidChar2(Seq<char>, u8, TextPos),
    InvalidString(Seq<char>, TextPos),
    InvalidCharacterData(TextPos),
    UnknownToken(TextPos),
    UnexpectedEndOfStream,
    NodeNotFound(Seq<char>),
}

impl View for Error {
    type V = ErrorV;

    open spec fn view(&self) -> ErrorV {
        match self {
            Error::InvalidXmlPrefixUri(p) => ErrorV::InvalidXmlPrefixUri(*p),
            Error::UnexpectedXmlUri(p) => ErrorV::UnexpectedXmlUri(*p),
            Error::UnexpectedXmlnsUri(p) => ErrorV::UnexpectedXmlnsUri(*p),
            Error::InvalidElementNamePrefix(p) => ErrorV::InvalidElementNamePrefix(*p),
            Error::DuplicatedNamespace(s, p) => ErrorV::DuplicatedNamespace(s@, *p),
            Error::UnknownNamespace(s, p) => ErrorV::UnknownNamespace(s@, *p),
            Error::UnexpectedCloseTag(a, b, p) => ErrorV::UnexpectedCloseTag(a@, b@, *p),
            Error::UnexpectedEntityCloseTag(p) => ErrorV::UnexpectedEntityCloseTag(*p),
            Error::UnknownEntityReference(s, p) => ErrorV::UnknownEntityReference(s@, *p),
            Error::MalformedEntityReference(p) => ErrorV::MalformedEntityReference(*p),
            Error::InvalidAttributeValue(p) => ErrorV::InvalidAttributeValue(*p),
            Error::DuplicatedAttribute(s, p) => ErrorV::DuplicatedAttribute(s@, *p),
            Error::NoRootNode => ErrorV::NoRootNode,
            Error::UnclosedRootNode => ErrorV::UnclosedRootNode,
            Error::UnexpectedDeclaration(p) => ErrorV::UnexpectedDeclaration(*p),
            Error::AttributesLimitReached => ErrorV::AttributesLimitReached,
            Error::NamespacesLimitReached => ErrorV::NamespacesLimitReached,
            Error::NodesLimitReached => ErrorV::NodesLimitReached,
            Error::InvalidName(p) => ErrorV::InvalidName(*p),
            Error::NonXmlChar(c, p) => ErrorV::NonXmlChar(*c, *p),
            Error::InvalidChar(a, b, p) => ErrorV::InvalidChar(*a, *b, *p),
            Error::InvalidChar2(s, b, p) => ErrorV::InvalidChar2(s@, *b, *p),
            Error::InvalidString(s, p) => ErrorV::InvalidString(s@, *p),
            Error::InvalidCharacterData(p) => ErrorV::InvalidCharacterData(*p),
            Error::UnknownToken(p) => ErrorV::UnknownToken(*p),
            Error::UnexpectedEndOfStream => ErrorV::UnexpectedEndOfStream,
            Error::NodeNotFound(s) => ErrorV::NodeNotFound(s@),
        }
    }
}

/// The position an [`Error`] carries in its model.
pub open spec fn spec_error_pos(e: ErrorV) -> TextPos {
    match e {
        ErrorV::InvalidXmlPrefixUri(p) => p,
        ErrorV::UnexpectedXmlUri(p) => p,
        ErrorV::UnexpectedXmlnsUri(p) => p,
        ErrorV::InvalidElementNamePrefix(p) => p,
        ErrorV::DuplicatedNamespace(_, p) => p,
        ErrorV::UnknownNamespace(_, p) => p,
        ErrorV::UnexpectedCloseTag(_, _, p) => p,
        ErrorV::UnexpectedEntityCloseTag(p) => p,
        ErrorV::UnknownEntityReference(_, p) => p,
        ErrorV::MalformedEntityReference(p) => p,
        ErrorV::InvalidAttributeValue(p) => p,
        ErrorV::DuplicatedAttribute(_, p) => p,
        ErrorV::NoRootNode => TextPos { row: 1, col: 1 },
        ErrorV::UnclosedRootNode => TextPos { row: 1, col: 1 },
        ErrorV::UnexpectedDeclaration(p) => p,
        ErrorV::AttributesLimitReached => TextPos { row: 1, col: 1 },
        ErrorV::NamespacesLimitReached => TextPos { row: 1, col: 1 },
        ErrorV::NodesLimitReached => TextPos { row: 1, col: 1 },
        ErrorV::InvalidName(p) => p,
        ErrorV::NonXmlChar(_, p) => p,
        ErrorV::InvalidChar(_, _, p) => p,
        ErrorV::InvalidChar2(_, _, p) => p,
        ErrorV::InvalidString(_, p) => p,
        ErrorV::InvalidCharacterData(p) => p,
        ErrorV::UnknownToken(p) => p,
        ErrorV::UnexpectedEndOfStream => TextPos { row: 1, col: 1 },
        ErrorV::NodeNotFound(_) => TextPos { row: 1, col: 1 },
    }
}

impl Error {
    /// Returns the error position.
    pub fn pos(&self) -> (r: TextPos)
        ensures
            r == spec_error_pos(self@),
    {
        match self {
            Error::InvalidXmlPrefixUri(p) => *p,
            Error::UnexpectedXmlUri(p) => *p,
            Error::UnexpectedXmlnsUri(p) => *p,
            Error::InvalidElementNamePrefix(p) => *p,
            Error::DuplicatedNamespace(_, p) => *p,
            Error::UnknownNamespace(_, p) => *p,
            Error::UnexpectedCloseTag(_, _, p) => *p,
            Error::UnexpectedEntityCloseTag(p) => *p,
            Error::UnknownEntityReference(_, p) => *p,
            Error::MalformedEntityReference(p) => *p,
            Error::InvalidAttributeValue(p) => *p,
            Error::DuplicatedAttribute(_, p) => *p,
            Error::NoRootNode => TextPos::new(1, 1),
            Error::UnclosedRootNode => TextPos::new(1, 1),
            Error::UnexpectedDeclaration(p) => *p,
            Error::AttributesLimitReached => TextPos::new(1, 1),
            Error::NamespacesLimitReached => TextPos::new(1, 1),
            Error::NodesLimitReached => TextPos::new(1, 1),
            Error::InvalidName(p) => *p,
            Error::NonXmlChar(_, p) => *p,
            Error::InvalidChar(_, _, p) => *p,
            Error::InvalidChar2(_, _, p) => *p,
            Error::InvalidString(_, p) => *p,
            Error::InvalidCharacterData(p) => *p,
            Error::UnknownToken(p) => *p,
            Error::UnexpectedEndOfStream => TextPos::new(1, 1),
            Error::NodeNotFound(_) => TextPos::new(1, 1),
        }
    }
}

// ---------------------------------------------------------------------------
// The builder state
// ---------------------------------------------------------------------------

/// Configuration of a parse: whether an internal subset is honored, and a
/// ceiling on the number of nodes produced.
#[derive(Debug, Clone, Copy, PartialEq, Eq, Structural)]
pub struct ParsingOptions {
    /// Honor custom entities declared in a `DOCTYPE` internal subset.
    pub allow_dtd: bool,
    /// Fail with a distinct error once this many nodes exist.
    pub nodes_limit: u32,
}

impl ParsingOptions {
    /// The defaults: the internal subset is honored and the node ceiling is
    /// the largest representable one.
    pub fn default_options() -> (r: ParsingOptions)
        ensures
            r == (ParsingOptions { allow_dtd: true, nodes_limit: u32::MAX }),
    {
        ParsingOptions { allow_dtd: true, nodes_limit: u32::MAX }
    }
}

/// The tag name staged by the last element-start event.
#[derive(Debug, Clone)]
pub struct TagNameSpan {
    pub prefix: String,
    pub name: String,
    pub prefix_pos: usize,
}

/// The mathematical shape of a [`TagNameSpan`].
#[verifier::ext_equal]
pub struct TagV {
    pub prefix: Seq<char>,
    pub name: Seq<char>,
    pub prefix_pos: usize,
}

impl View for TagNameSpan {
    type V = TagV;

    open spec fn view(&self) -> TagV {
        TagV { prefix: self.prefix@, name: self.name@, prefix_pos: self.prefix_pos }
    }
}

impl TagNameSpan {
    /// An empty staged tag name, as before any element-start event.
    pub fn new_null() -> (r: TagNameSpan)
        ensures
            r@.prefix.len() == 0,
            r@.name.len() == 0,
            r@.prefix_pos == 0,
    {
        TagNameSpan { prefix: String::new(), name: String::new(), prefix_pos: 0 }
    }
}

/// One staged, not-yet-committed attribute of the element being opened.
#[derive(Debug, Clone)]
pub struct TempAttributeData {
    pub prefix: String,
    pub local: String,
    pub value: String,
    pub pos: usize,
}

/// The mathematical shape of a [`TempAttributeData`].
#[verifier::ext_equal]
pub struct TempAttrV {
    pub prefix: Seq<char>,
    pub local: Seq<char>,
    pub value: Seq<char>,
    pub pos: usize,
}

impl View for TempAttributeData {
    type V = TempAttrV;

    open spec fn view(&self) -> TempAttrV {
        TempAttrV { prefix: self.prefix@, local: self.local@, value: self.value@, pos: self.pos }
    }
}

/// The builder: the one mutable value of a parse.
pub struct Context {
    pub namespace_start_idx: usize,
    pub current_attributes: Vec<TempAttributeData>,
    pub awaiting_subtree: Vec<usize>,
    pub parent_prefixes: Vec<String>,
    pub after_text: bool,
    pub parent_id: usize,
    pub tag_name: TagNameSpan,
    pub doc: Document,
    pub entities: Vec<Entity>,
    pub has_subset: bool,
    pub options: ParsingOptions,
}

/// The mathematical shape of the builder state.
#[verifier::ext_equal]
pub struct BuilderV {
    pub ns_start: usize,
    pub cur_attrs: Seq<TempAttrV>,
    pub awaiting: Seq<usize>,
    pub prefixes: Seq<Seq<char>>,
    pub after_text: bool,
    pub parent: usize,
    pub tag: TagV,
    pub doc: DocumentV,
    pub entities: Seq<EntityV>,
    pub has_subset: bool,
    pub options: ParsingOptions,
}

impl View for Context {
    type V = BuilderV;

    open spec fn view(&self) -> BuilderV {
        BuilderV {
            ns_start: self.namespace_start_idx,
            cur_attrs: self.current_attributes@.map_values(|a: TempAttributeData| a@),
            awaiting: self.awaiting_subtree@,
            prefixes: self.parent_prefixes@.map_values(|p: String| p@),
            after_text: self.after_text,
            parent: self.parent_id,
            tag: self.tag_name@,
            doc: self.doc@,
            entities: entities_view(self.entities@),
            has_subset: self.has_subset,
            options: self.options,
        }
    }
}

/// How many ancestors node `j` has: the nesting depth it sits at.
pub open spec fn spec_depth(nodes: Seq<NodeV>, j: int) -> int
    decreases j,
{
    if j <= 0 || j >= nodes.len() {
        0
    } else {
        match nodes[j].parent {
            Some(p) => if p as int >= j {
                0
            } else {
                1 + spec_depth(nodes, p as int)
            },
            None => 0,
        }
    }
}

/// The bounds every event handler needs of the builder state; the initial
/// state has them and every successful step preserves them.
pub open spec fn spec_builder_bounds(b: BuilderV) -> bool {
    &&& spec_depth(b.doc.nodes, b.parent as int) + 1 == b.prefixes.len()
    &&& crate::tree::spec_wf_parents(b.doc.nodes)
    &&& (b.parent as int) < b.doc.nodes.len()
    &&& !(b.doc.nodes[b.parent as int].kind is Text)
    &&& b.prefixes.len() >= 1
    &&& forall|t: int|
        0 <= t < b.awaiting.len() ==> (#[trigger] b.awaiting[t] as int) < b.doc.nodes.len()
    &&& b.ns_start as int <= b.doc.namespaces.tree_order.len()
    &&& b.doc.namespaces.values.len() >= 1
    &&& forall|k: int|
        0 <= k < b.doc.namespaces.tree_order.len() ==> (#[trigger] b.doc.namespaces.tree_order[k]
            as int) < b.doc.namespaces.values.len()
    &&& forall|j: int|
        0 <= j < b.doc.nodes.len() ==> match #[trigger] b.doc.nodes[j].kind {
            NodeKindV::Element { namespaces, .. } => namespaces.start <= namespaces.end
                <= b.doc.namespaces.tree_order.len(),
            _ => true,
        }
}

// ---------------------------------------------------------------------------
// The specification interpreter: what one event does to the builder state
// ---------------------------------------------------------------------------

/// The line/column position of byte offset `p` for this builder.
pub open spec fn spec_pos_at(b: BuilderV, p: int) -> TextPos {
    spec_text_pos(b.doc.text, p)
}

/// Turns a normalization fault into the error the parse reports.
pub open spec fn spec_fault_error(f: TextFault, raw: Seq<char>, text: Seq<char>) -> ErrorV {
    match f {
        TextFault::Malformed { pos } => ErrorV::MalformedEntityReference(
            spec_text_pos(text, pos as int),
        ),
        TextFault::Unknown { name_start, name_end, pos } => ErrorV::UnknownEntityReference(
            raw.subrange(name_start as int, name_end as int),
            spec_text_pos(text, pos as int),
        ),
    }
}

/// The builder state before any event: a lone root node and the predefined
/// `xml` namespace in slot 0, with scopes starting past it.
pub open spec fn spec_builder_init(text: Seq<char>, options: ParsingOptions) -> BuilderV {
    BuilderV {
        ns_start: 1,
        cur_attrs: Seq::empty(),
        awaiting: Seq::empty(),
        prefixes: seq![Seq::<char>::empty()],
        after_text: false,
        parent: 0,
        tag: TagV { prefix: Seq::empty(), name: Seq::empty(), prefix_pos: 0 },
        doc: DocumentV {
            text,
            nodes: seq![
                NodeV {
                    parent: None,
                    prev_sibling: None,
                    next_subtree: None,
                    last_child: None,
                    kind: NodeKindV::Root,
                },
            ],
            attributes: Seq::empty(),
            namespaces: NamespacesV {
                values: seq![NsV { name: Some(NS_XML_PREFIX@), uri: NS_XML_URI@ }],
                tree_order: seq![0usize],
            },
        },
        entities: Seq::empty(),
        has_subset: false,
        options,
    }
}

/// Back-patches the skip pointer of every id in `awaiting` to `id`.
pub open spec fn spec_patch(nodes: Seq<NodeV>, awaiting: Seq<usize>, id: usize) -> Seq<NodeV>
    decreases awaiting.len(),
{
    if awaiting.len() == 0 {
        nodes
    } else {
        let a = awaiting[0] as int;
        let nodes1 = if 0 <= a < nodes.len() {
            nodes.update(a, NodeV { next_subtree: Some(id), ..nodes[a] })
        } else {
            nodes
        };
        spec_patch(nodes1, awaiting.drop_first(), id)
    }
}

/// Appends one node under the current parent: links it as the new last
/// child, resolves every pending skip pointer to it, and stages it as
/// awaiting its own skip pointer unless it is an element.
pub open spec fn spec_append_node(b: BuilderV, kind: NodeKindV) -> Result<(BuilderV, usize), ErrorV> {
    if b.doc.nodes.len() >= b.options.nodes_limit {
        Err(ErrorV::NodesLimitReached)
    } else {
        let new_id = b.doc.nodes.len() as usize;
        let p = b.parent as int;
        let node = NodeV {
            parent: Some(b.parent),
            prev_sibling: b.doc.nodes[p].last_child,
            next_subtree: None,
            last_child: None,
            kind,
        };
        let nodes1 = b.doc.nodes.push(node);
        let nodes2 = nodes1.update(p, NodeV { last_child: Some(new_id), ..nodes1[p] });
        let nodes3 = spec_patch(nodes2, b.awaiting, new_id);
        let is_elem = kind is Element;
        let b2 = BuilderV {
            doc: DocumentV { nodes: nodes3, ..b.doc },
            awaiting: if is_elem {
                Seq::empty()
            } else {
                seq![new_id]
            },
            ..b
        };
        Ok((b2, new_id))
    }
}

/// Appends normalized text: merged into the preceding text node if the
/// last committed node was text, else as a new text node.
pub open spec fn spec_append_text(b: BuilderV, content: Seq<char>) -> Result<BuilderV, ErrorV> {
    if b.after_text {
        let last = b.doc.nodes.len() - 1;
        if b.doc.nodes.len() > 0 && b.doc.nodes[last].kind is Text {
            let prev = b.doc.nodes[last].kind->Text_0;
            let nodes1 = b.doc.nodes.update(
                last,
                NodeV { kind: NodeKindV::Text(prev + content), ..b.doc.nodes[last] },
            );
            Ok(BuilderV { doc: DocumentV { nodes: nodes1, ..b.doc }, ..b })
        } else {
            Ok(b)
        }
    } else {
        match spec_append_node(b, NodeKindV::Text(content)) {
            Ok((b2, _)) => Ok(b2),
            Err(e) => Err(e),
        }
    }
}

/// What a text event does: normalize, then append or merge; an event whose
/// normalization comes out empty commits nothing.
pub open spec fn spec_process_text(b: BuilderV, raw: Seq<char>, pos: usize) -> Result<
    BuilderV,
    ErrorV,
> {
    match spec_text_content(raw, b.entities, b.has_subset, pos as int) {
        Err(f) => Err(spec_fault_error(f, raw, b.doc.text)),
        Ok(content) => {
            if !spec_text_special(raw) || content.len() > 0 {
                match spec_append_text(b, content) {
                    Ok(b2) => Ok(BuilderV { after_text: true, ..b2 }),
                    Err(e) => Err(e),
                }
            } else {
                Ok(b)
            }
        },
    }
}

/// What a CDATA event does: its content is committed verbatim.
pub open spec fn spec_process_cdata(b: BuilderV, raw: Seq<char>) -> Result<BuilderV, ErrorV> {
    match spec_append_text(b, raw) {
        Ok(b2) => Ok(BuilderV { after_text: true, ..b2 }),
        Err(e) => Err(e),
    }
}

/// What an attribute event does: normalize the value; a declaration goes to
/// the namespace table after the reserved-name checks, anything else is
/// staged for the element being opened.
pub open spec fn spec_process_attribute(
    b: BuilderV,
    prefix: Seq<char>,
    local: Seq<char>,
    value_raw: Seq<char>,
    pos: usize,
    value_pos: usize,
) -> Result<BuilderV, ErrorV> {
    match spec_norm_attr(value_raw, b.entities, b.has_subset, value_pos as int) {
        Err(f) => Err(spec_fault_error(f, value_raw, b.doc.text)),
        Ok(value) => {
            if prefix == XMLNS@ {
                if value == NS_XMLNS_URI@ {
                    Err(ErrorV::UnexpectedXmlnsUri(spec_pos_at(b, pos as int)))
                } else {
                    let is_xml_ns_uri = value == NS_XML_URI@;
                    if local == NS_XML_PREFIX@ && !is_xml_ns_uri {
                        Err(ErrorV::InvalidXmlPrefixUri(spec_pos_at(b, pos as int)))
                    } else if local != NS_XML_PREFIX@ && is_xml_ns_uri {
                        Err(ErrorV::UnexpectedXmlUri(spec_pos_at(b, pos as int)))
                    } else if spec_ns_exists(b.doc.namespaces, b.ns_start as int, Some(local)) {
                        Err(ErrorV::DuplicatedNamespace(local, spec_pos_at(b, pos as int)))
                    } else if !is_xml_ns_uri {
                        if b.doc.namespaces.values.len() > 0xFFFF {
                            Err(ErrorV::NamespacesLimitReached)
                        } else {
                            Ok(
                                BuilderV {
                                    doc: DocumentV {
                                        namespaces: spec_ns_push(
                                            b.doc.namespaces,
                                            Some(local),
                                            value,
                                        ),
                                        ..b.doc
                                    },
                                    ..b
                                },
                            )
                        }
                    } else {
                        Ok(b)
                    }
                }
            } else if local == XMLNS@ {
                if value == NS_XML_URI@ {
                    Err(ErrorV::UnexpectedXmlUri(spec_pos_at(b, pos as int)))
                } else if value == NS_XMLNS_URI@ {
                    Err(ErrorV::UnexpectedXmlnsUri(spec_pos_at(b, pos as int)))
                } else if b.doc.namespaces.values.len() > 0xFFFF {
                    Err(ErrorV::NamespacesLimitReached)
                } else {
                    Ok(
                        BuilderV {
                            doc: DocumentV {
                                namespaces: spec_ns_push(b.doc.namespaces, None, value),
                                ..b.doc
                            },
                            ..b
                        },
                    )
                }
            } else {
                Ok(
                    BuilderV {
                        cur_attrs: b.cur_attrs.push(TempAttrV { prefix, local, value, pos }),
                        ..b
                    },
                )
            }
        },
    }
}

/// Copies the parent's visible declarations that the element being opened
/// has not shadowed, one tree-order reference at a time.
pub open spec fn spec_copy_parent_ns(ns: NamespacesV, start: int, lo: int, hi: int) -> NamespacesV
    decreases hi - lo,
{
    if lo < 0 || lo >= hi || lo >= ns.tree_order.len() {
        ns
    } else {
        let idx = ns.tree_order[lo] as int;
        let ns1 = if idx < ns.values.len() && !spec_ns_exists(ns, start, ns.values[idx].name) {
            spec_ns_push_ref(ns, lo)
        } else {
            ns
        };
        spec_copy_parent_ns(ns1, start, lo + 1, hi)
    }
}

/// Computes the namespace scope of the element being opened: the parent's
/// range is reused when no new declaration was made, else the new
/// declarations plus the unshadowed parent entries form a fresh range.
pub open spec fn spec_resolve_namespaces(b: BuilderV) -> (BuilderV, ShortRange) {
    let tol = b.doc.namespaces.tree_order.len();
    if 0 <= b.parent < b.doc.nodes.len() {
        match b.doc.nodes[b.parent as int].kind {
            NodeKindV::Element { namespaces: pns, .. } => {
                if b.ns_start == tol {
                    (b, pns)
                } else {
                    let ns2 = spec_copy_parent_ns(
                        b.doc.namespaces,
                        b.ns_start as int,
                        pns.start as int,
                        pns.end as int,
                    );
                    let b2 = BuilderV { doc: DocumentV { namespaces: ns2, ..b.doc }, ..b };
                    (b2, ShortRange { start: b.ns_start, end: ns2.tree_order.len() as usize })
                }
            },
            _ => (b, ShortRange { start: b.ns_start, end: tol as usize }),
        }
    } else {
        (b, ShortRange { start: b.ns_start, end: tol as usize })
    }
}

/// The first declaration in the scope range whose prefix matches, as an
/// index into the namespace values.
pub open spec fn spec_find_ns(ns: NamespacesV, lo: int, hi: int, name: Option<Seq<char>>) -> Option<
    usize,
>
    decreases hi - lo,
{
    if lo < 0 || lo >= hi || lo >= ns.tree_order.len() {
        None
    } else if ns.tree_order[lo] < ns.values.len() && ns.values[ns.tree_order[lo] as int].name
        == name {
        Some(ns.tree_order[lo])
    } else {
        spec_find_ns(ns, lo + 1, hi, name)
    }
}

/// Resolves a qualified-name prefix against a scope range: an empty prefix
/// without a default declaration means "no namespace", a non-empty prefix
/// without a declaration is an error.
pub open spec fn spec_get_ns_idx(
    b: BuilderV,
    range: ShortRange,
    prefix: Seq<char>,
    prefix_pos: usize,
) -> Result<Option<usize>, ErrorV> {
    let name: Option<Seq<char>> = if prefix.len() == 0 {
        None
    } else {
        Some(prefix)
    };
    match spec_find_ns(b.doc.namespaces, range.start as int, range.end as int, name) {
        Some(idx) => Ok(Some(idx)),
        None => if prefix.len() > 0 {
            Err(ErrorV::UnknownNamespace(prefix, spec_pos_at(b, prefix_pos as int)))
        } else {
            Ok(None)
        },
    }
}

/// Whether an attribute with this expanded name was already committed for
/// the element being opened.
pub open spec fn spec_attr_dup(
    attrs: Seq<AttrV>,
    values: Seq<NsV>,
    start: int,
    name: ExpandedNameV,
) -> bool {
    exists|k: int|
        start <= k < attrs.len() && spec_expanded_eq(#[trigger] attrs[k].name, name, values)
}

/// Commits the staged attributes one by one: resolve the namespace, reject
/// a duplicate expanded name, append.
pub open spec fn spec_attr_fold(
    b: BuilderV,
    ns_range: ShortRange,
    rest: Seq<TempAttrV>,
    start: int,
) -> Result<(BuilderV, ShortRange), ErrorV>
    decreases rest.len(),
{
    if rest.len() == 0 {
        Ok((b, ShortRange { start: start as usize, end: b.doc.attributes.len() as usize }))
    } else {
        let a = rest[0];
        let idx_result: Result<Option<usize>, ErrorV> = if a.prefix == NS_XML_PREFIX@ {
            Ok(Some(0usize))
        } else if a.prefix.len() == 0 {
            Ok(None)
        } else {
            spec_get_ns_idx(b, ns_range, a.prefix, a.pos)
        };
        match idx_result {
            Err(e) => Err(e),
            Ok(idx) => {
                let name = ExpandedNameV { namespace_idx: idx, local_name: a.local };
                if spec_attr_dup(b.doc.attributes, b.doc.namespaces.values, start, name) {
                    Err(ErrorV::DuplicatedAttribute(a.local, spec_pos_at(b, a.pos as int)))
                } else {
                    let b2 = BuilderV {
                        doc: DocumentV {
                            attributes: b.doc.attributes.push(AttrV { name, value: a.value }),
                            ..b.doc
                        },
                        ..b
                    };
                    spec_attr_fold(b2, ns_range, rest.drop_first(), start)
                }
            },
        }
    }
}

/// Resolves all staged attributes of the element being opened, enforcing
/// the document-wide attribute ceiling.
pub open spec fn spec_resolve_attributes(b: BuilderV, ns_range: ShortRange) -> Result<
    (BuilderV, ShortRange),
    ErrorV,
> {
    if b.cur_attrs.len() == 0 {
        Ok((b, ShortRange { start: 0, end: 0 }))
    } else if b.doc.attributes.len() + b.cur_attrs.len() >= u32::MAX {
        Err(ErrorV::AttributesLimitReached)
    } else {
        let b1 = BuilderV { cur_attrs: Seq::empty(), ..b };
        spec_attr_fold(b1, ns_range, b.cur_attrs, b.doc.attributes.len() as int)
    }
}

/// A qualified name as written in the source.
pub open spec fn spec_qname(prefix: Seq<char>, local: Seq<char>) -> Seq<char> {
    if prefix.len() == 0 {
        local
    } else {
        prefix + seq![':'] + local
    }
}

/// What an element-end event does, for each of its three forms.
pub open spec fn spec_process_element(b: BuilderV, end: ElementEnd, pos: usize) -> Result<
    BuilderV,
    ErrorV,
> {
    if b.tag.name.len() == 0 {
        // A close tag where no element was ever opened at this level, or a
        // stream out of protocol.
        if end is Close {
            Err(ErrorV::UnexpectedEntityCloseTag(spec_pos_at(b, pos as int)))
        } else {
            Err(ErrorV::UnknownToken(spec_pos_at(b, pos as int)))
        }
    } else {
        let br = spec_resolve_namespaces(b);
        let b1 = br.0;
        let namespaces = br.1;
        let b1 = BuilderV { ns_start: b1.doc.namespaces.tree_order.len() as usize, ..b1 };
        match spec_resolve_attributes(b1, namespaces) {
            Err(e) => Err(e),
            Ok((b2, attributes)) => match end {
                ElementEnd::Empty => {
                    match spec_get_ns_idx(b2, namespaces, b.tag.prefix, b.tag.prefix_pos) {
                        Err(e) => Err(e),
                        Ok(tag_ns_idx) => {
                            let kind = NodeKindV::Element {
                                tag_name: ExpandedNameV {
                                    namespace_idx: tag_ns_idx,
                                    local_name: b.tag.name,
                                },
                                attributes,
                                namespaces,
                            };
                            match spec_append_node(b2, kind) {
                                Err(e) => Err(e),
                                Ok((b3, new_id)) => Ok(
                                    BuilderV { awaiting: b3.awaiting.push(new_id), ..b3 },
                                ),
                            }
                        },
                    }
                },
                ElementEnd::Close(cp, cl) => {
                    let p = b2.parent as int;
                    match b2.doc.nodes[p].parent {
                        None => Err(ErrorV::UnexpectedEntityCloseTag(spec_pos_at(b2, pos as int))),
                        Some(gp) => {
                            let parent_prefix = b2.prefixes.last();
                            let mismatch = match b2.doc.nodes[p].kind {
                                NodeKindV::Element { tag_name, .. } => cp@ != parent_prefix || cl@
                                    != tag_name.local_name,
                                _ => false,
                            };
                            if mismatch {
                                let expected = match b2.doc.nodes[p].kind {
                                    NodeKindV::Element { tag_name, .. } => spec_qname(
                                        parent_prefix,
                                        tag_name.local_name,
                                    ),
                                    _ => Seq::empty(),
                                };
                                Err(
                                    ErrorV::UnexpectedCloseTag(
                                        expected,
                                        spec_qname(cp@, cl@),
                                        spec_pos_at(b2, pos as int),
                                    ),
                                )
                            } else {
                                Ok(
                                    BuilderV {
                                        awaiting: b2.awaiting.push(b2.parent),
                                        parent: gp,
                                        prefixes: b2.prefixes.drop_last(),
                                        ..b2
                                    },
                                )
                            }
                        },
                    }
                },
                ElementEnd::Open => {
                    match spec_get_ns_idx(b2, namespaces, b.tag.prefix, b.tag.prefix_pos) {
                        Err(e) => Err(e),
                        Ok(tag_ns_idx) => {
                            let kind = NodeKindV::Element {
                                tag_name: ExpandedNameV {
                                    namespace_idx: tag_ns_idx,
                                    local_name: b.tag.name,
                                },
                                attributes,
                                namespaces,
                            };
                            match spec_append_node(b2, kind) {
                                Err(e) => Err(e),
                                Ok((b3, new_id)) => Ok(
                                    BuilderV {
                                        parent: new_id,
                                        prefixes: b3.prefixes.push(b.tag.prefix),
                                        ..b3
                                    },
                                ),
                            }
                        },
                    }
                },
            },
        }
    }
}

/// What one event does to the builder state.
pub open spec fn spec_token_step(b: BuilderV, t: Event) -> Result<BuilderV, ErrorV> {
    match t {
        Event::ElementStart { prefix, local, start } => {
            if prefix@ == XMLNS@ {
                Err(
                    ErrorV::InvalidElementNamePrefix(
                        spec_pos_at(b, spec_sat_add(start as int, 1)),
                    ),
                )
            } else {
                Ok(
                    BuilderV {
                        tag: TagV {
                            prefix: prefix@,
                            name: local@,
                            prefix_pos: spec_sat_add(start as int, 1) as usize,
                        },
                        after_text: false,
                        ..b
                    },
                )
            }
        },
        Event::Attribute { prefix, local, value, pos, value_pos } => spec_process_attribute(
            b,
            prefix@,
            local@,
            value@,
            pos,
            value_pos,
        ),
        Event::ElementEnd { end, pos } => match spec_process_element(b, end, pos) {
            Ok(b2) => Ok(BuilderV { after_text: false, ..b2 }),
            Err(e) => Err(e),
        },
        Event::Text { text, pos } => spec_process_text(b, text@, pos),
        Event::Cdata { text, pos } => spec_process_cdata(b, text@),
        Event::EntityDefinition { name, value } => {
            if b.options.allow_dtd {
                Ok(
                    BuilderV {
                        entities: b.entities.push(EntityV { name: name@, value: value@ }),
                        ..b
                    },
                )
            } else {
                Ok(b)
            }
        },
        Event::DtdStart => {
            if b.options.allow_dtd {
                Ok(BuilderV { has_subset: true, ..b })
            } else {
                Ok(b)
            }
        },
    }
}

/// Folds the whole event stream over the builder, stopping at the first
/// failure.
pub open spec fn spec_fold(b: BuilderV, ts: Seq<Event>) -> Result<BuilderV, ErrorV>
    decreases ts.len(),
{
    if ts.len() == 0 {
        Ok(b)
    } else {
        match spec_token_step(b, ts[0]) {
            Err(e) => Err(e),
            Ok(b2) => spec_fold(b2, ts.drop_first()),
        }
    }
}

/// How many element children the root has among the first `n` nodes.
pub open spec fn spec_root_elem_count(nodes: Seq<NodeV>, n: int) -> int
    decreases n,
{
    if n <= 0 {
        0
    } else {
        spec_root_elem_count(nodes, n - 1) + if nodes[n - 1].parent == Some(0usize) && nodes[n
            - 1].kind is Element {
            1int
        } else {
            0int
        }
    }
}

/// The termination checks: exactly one root element was produced and the
/// open-element stack is empty.
pub open spec fn spec_finish(b: BuilderV) -> Result<DocumentV, ErrorV> {
    if spec_root_elem_count(b.doc.nodes, b.doc.nodes.len() as int) != 1 {
        Err(ErrorV::NoRootNode)
    } else if b.prefixes.len() > 1 {
        Err(ErrorV::UnclosedRootNode)
    } else {
        Ok(b.doc)
    }
}

/// The document an event stream builds over the given source text, or the
/// first error.
pub open spec fn spec_parse_tokens(
    text: Seq<char>,
    tokens: Seq<Event>,
    options: ParsingOptions,
) -> Result<DocumentV, ErrorV> {
    match spec_fold(spec_builder_init(text, options), tokens) {
        Err(e) => Err(e),
        Ok(b) => spec_finish(b),
    }
}

// ---------------------------------------------------------------------------
// The executable builder
// ---------------------------------------------------------------------------

/// The view of a node arena.
pub open spec fn nv(nodes: Seq<NodeData>) -> Seq<NodeV> {
    nodes.map_values(|n: NodeData| n@)
}

/// Overwrites the last-child link of node `i`.
fn set_last_child(nodes: &mut Vec<NodeData>, i: usize, v: Option<usize>)
    requires
        i < old(nodes)@.len(),
    ensures
        nv(final(nodes)@) == nv(old(nodes)@).update(
            i as int,
            NodeV { last_child: v, ..nv(old(nodes)@)[i as int] },
        ),
{
    let mut tmp = NodeData {
        parent: None,
        prev_sibling: None,
        next_subtree: None,
        last_child: None,
        kind: NodeKind::Root,
    };
    nodes.set_and_swap(i, &mut tmp);
    tmp.last_child = v;
    nodes.set_and_swap(i, &mut tmp);
    proof {
        assert(nv(final(nodes)@) =~= nv(old(nodes)@).update(
            i as int,
            NodeV { last_child: v, ..nv(old(nodes)@)[i as int] },
        ));
    }
}

/// Overwrites the subtree-skip pointer of node `i`.
fn set_next_subtree(nodes: &mut Vec<NodeData>, i: usize, v: Option<usize>)
    requires
        i < old(nodes)@.len(),
    ensures
        nv(final(nodes)@) == nv(old(nodes)@).update(
            i as int,
            NodeV { next_subtree: v, ..nv(old(nodes)@)[i as int] },
        ),
{
    let mut tmp = NodeData {
        parent: None,
        prev_sibling: None,
        next_subtree: None,
        last_child: None,
        kind: NodeKind::Root,
    };
    nodes.set_and_swap(i, &mut tmp);
    tmp.next_subtree = v;
    nodes.set_and_swap(i, &mut tmp);
    proof {
        assert(nv(final(nodes)@) =~= nv(old(nodes)@).update(
            i as int,
            NodeV { next_subtree: v, ..nv(old(nodes)@)[i as int] },
        ));
    }
}

impl Context {
    /// The line/column position of byte offset `pos` in the source text.
    pub fn err_pos_at(&self, pos: usize) -> (r: TextPos)
        ensures
            r == spec_pos_at(self@, pos as int),
    {
        text_pos_at(self.doc.text.as_str(), pos)
    }

    /// Appends one node under the current parent, wiring the sibling and
    /// skip links exactly as the model says.
    pub fn append_node(&mut self, kind: NodeKind) -> (r: Result<usize, Error>)
        requires
            spec_builder_bounds(old(self)@),
        ensures
            match r {
                Ok(id) => spec_append_node(old(self)@, kind@) == Ok::<(BuilderV, usize), ErrorV>(
                    (final(self)@, id),
                ),
                Err(e) => spec_append_node(old(self)@, kind@) == Err::<(BuilderV, usize), ErrorV>(
                    e@,
                ),
            },
    {
        if self.doc.nodes.len() >= self.options.nodes_limit as usize {
            return Err(Error::NodesLimitReached);
        }
        let ghost b0 = self@;
        let ghost kv = kind@;
        let new_child_id = self.doc.nodes.len();
        let appending_element = matches!(kind, NodeKind::Element { .. });
        let last_child_id = self.doc.nodes[self.parent_id].last_child;
        self.doc.nodes.push(
            NodeData {
                parent: Some(self.parent_id),
                prev_sibling: last_child_id,
                next_subtree: None,
                last_child: None,
                kind,
            },
        );
        proof {
            assert(nv(self.doc.nodes@) =~= b0.doc.nodes.push(
                NodeV {
                    parent: Some(b0.parent),
                    prev_sibling: b0.doc.nodes[b0.parent as int].last_child,
                    next_subtree: None,
                    last_child: None,
                    kind: kv,
                },
            ));
        }
        set_last_child(&mut self.doc.nodes, self.parent_id, Some(new_child_id));
        let ghost nodes2 = nv(self.doc.nodes@);
        let ghost aw = self.awaiting_subtree@;
        let ghost mid = self@;
        proof {
            assert(aw.skip(0) =~= aw);
        }
        let mut t: usize = 0;
        while t < self.awaiting_subtree.len()
            invariant
                0 <= t <= aw.len(),
                self.awaiting_subtree@ == aw,
                self@ =~= (BuilderV {
                    doc: DocumentV { nodes: nv(self.doc.nodes@), ..mid.doc },
                    ..mid
                }),
                self.doc.nodes@.len() == nodes2.len(),
                spec_patch(nv(self.doc.nodes@), aw.skip(t as int), new_child_id) == spec_patch(
                    nodes2,
                    aw,
                    new_child_id,
                ),
            decreases aw.len() - t,
        {
            let a = self.awaiting_subtree[t];
            proof {
                assert(aw.skip(t as int)[0] == aw[t as int]);
                assert(aw.skip(t as int).drop_first() =~= aw.skip(t as int + 1));
                assert(nv(self.doc.nodes@).len() == self.doc.nodes@.len());
            }
            if a < self.doc.nodes.len() {
                set_next_subtree(&mut self.doc.nodes, a, Some(new_child_id));
                proof {
                    assert(nv(self.doc.nodes@).len() == self.doc.nodes@.len());
                }
            }
            t = t + 1;
        }
        proof {
            assert(aw.skip(aw.len() as int) =~= Seq::<usize>::empty());
        }
        self.awaiting_subtree.clear();
        if !appending_element {
            self.awaiting_subtree.push(new_child_id);
        }
        proof {
            let stepped = spec_append_node(b0, kv);
            assert(stepped matches Ok(pair) && pair.1 == new_child_id);
            assert(final(self)@ =~= stepped->Ok_0.0);
        }
        Ok(new_child_id)
    }
}

/// Turns a normalization fault into the error the parse reports, computing
/// the position lazily.
fn fault_to_error(f: TextFault, raw: &str, text: &str) -> (r: Error)
    requires
        (f matches TextFault::Unknown { name_start, name_end, .. } ==> name_start <= name_end
            <= raw@.len()),
    ensures
        r@ == spec_fault_error(f, raw@, text@),
{
    match f {
        TextFault::Malformed { pos } => Error::MalformedEntityReference(text_pos_at(text, pos)),
        TextFault::Unknown { name_start, name_end, pos } => {
            let cs = chars_vec(raw);
            let name = crate::chars::chars_sub_string(&cs, name_start, name_end);
            Error::UnknownEntityReference(name, text_pos_at(text, pos))
        },
    }
}

/// Appends normalized text under the current parent, or merges it into the
/// preceding text node.
pub fn append_text(text: String, ctx: &mut Context) -> (r: Result<(), Error>)
    requires
        spec_builder_bounds(old(ctx)@),
    ensures
        match r {
            Ok(_) => spec_append_text(old(ctx)@, text@) == Ok::<BuilderV, ErrorV>(final(ctx)@),
            Err(e) => spec_append_text(old(ctx)@, text@) == Err::<BuilderV, ErrorV>(e@),
        },
{
    if ctx.after_text {
        let last = ctx.doc.nodes.len() - 1;
        let mut tmp = NodeData {
            parent: None,
            prev_sibling: None,
            next_subtree: None,
            last_child: None,
            kind: NodeKind::Root,
        };
        ctx.doc.nodes.set_and_swap(last, &mut tmp);
        match &mut tmp.kind {
            NodeKind::Text(prev) => {
                prev.append(text.as_str());
            },
            _ => {},
        }
        ctx.doc.nodes.set_and_swap(last, &mut tmp);
        proof {
            assert(final(ctx)@ =~= spec_append_text(old(ctx)@, text@)->Ok_0);
        }
        Ok(())
    } else {
        match ctx.append_node(NodeKind::Text(text)) {
            Ok(_) => Ok(()),
            Err(e) => Err(e),
        }
    }
}

/// Handles a text event: normalize, then commit unless nothing is left.
pub fn process_text(text: String, pos: usize, ctx: &mut Context) -> (r: Result<(), Error>)
    requires
        spec_builder_bounds(old(ctx)@),
    ensures
        match r {
            Ok(_) => spec_process_text(old(ctx)@, text@, pos) == Ok::<BuilderV, ErrorV>(
                final(ctx)@,
            ),
            Err(e) => spec_process_text(old(ctx)@, text@, pos) == Err::<BuilderV, ErrorV>(e@),
        },
{
    let n = text.as_str().unicode_len();
    let special = crate::text::has_text_special(text.as_str());
    match normalize_text(text.as_str(), pos, &ctx.entities, ctx.has_subset) {
        Err(f) => {
            proof {
                crate::text::lemma_norm_text_fault(
                    text@,
                    entities_view(ctx.entities@),
                    ctx.has_subset,
                    0,
                    pos as int,
                    Seq::<char>::empty(),
                    false,
                );
            }
            Err(fault_to_error(f, text.as_str(), ctx.doc.text.as_str()))
        },
        Ok(content) => {
            if !special || !content.as_str().is_empty() {
                match append_text(content, ctx) {
                    Ok(_) => {
                        ctx.after_text = true;
                        proof {
                            assert(final(ctx)@ =~= spec_process_text(old(ctx)@, text@, pos)->Ok_0);
                        }
                        Ok(())
                    },
                    Err(e) => Err(e),
                }
            } else {
                Ok(())
            }
        },
    }
}

/// A qualified name as written in the source.
pub fn gen_qname_string(prefix: &str, local: &str) -> (r: String)
    ensures
        r@ == spec_qname(prefix@, local@),
{
    if prefix.is_empty() {
        local.to_owned()
    } else {
        let mut s = prefix.to_owned();
        s.append(":");
        s.append(local);
        proof {
            reveal_strlit(":");
            assert(s@ =~= prefix@ + seq![':'] + local@);
        }
        s
    }
}

/// Copying unshadowed parent declarations only grows the tree order with
/// entries it already held, and touches nothing else.
proof fn lemma_copy_ns_frame(ns: NamespacesV, start: int, lo: int, hi: int)
    ensures
        ({
            let r = spec_copy_parent_ns(ns, start, lo, hi);
            &&& r.values == ns.values
            &&& r.tree_order.len() >= ns.tree_order.len()
            &&& (forall|k: int|
                0 <= k < ns.tree_order.len() ==> r.tree_order[k] == ns.tree_order[k])
            &&& ((forall|k: int|
                0 <= k < ns.tree_order.len() ==> (#[trigger] ns.tree_order[k] as int)
                    < ns.values.len()) ==> (forall|k: int|
                0 <= k < r.tree_order.len() ==> (#[trigger] r.tree_order[k] as int)
                    < r.values.len()))
        }),
    decreases hi - lo,
{
    if !(lo < 0 || lo >= hi || lo >= ns.tree_order.len()) {
        let idx = ns.tree_order[lo] as int;
        let ns1 = if idx < ns.values.len() && !spec_ns_exists(ns, start, ns.values[idx].name) {
            spec_ns_push_ref(ns, lo)
        } else {
            ns
        };
        lemma_copy_ns_frame(ns1, start, lo + 1, hi);
    }
}

/// Committing staged attributes only grows the attribute table, and touches
/// nothing else of the builder.
proof fn lemma_attr_fold_frame(b: BuilderV, ns_range: ShortRange, rest: Seq<TempAttrV>, start: int)
    ensures
        match spec_attr_fold(b, ns_range, rest, start) {
            Ok(p) => {
                let b2 = p.0;
                &&& b2.doc.nodes == b.doc.nodes
                &&& b2.doc.namespaces == b.doc.namespaces
                &&& b2.doc.text == b.doc.text
                &&& b2.parent == b.parent
                &&& b2.prefixes == b.prefixes
                &&& b2.awaiting == b.awaiting
                &&& b2.ns_start == b.ns_start
                &&& b2.tag == b.tag
                &&& b2.after_text == b.after_text
                &&& b2.entities == b.entities
                &&& b2.has_subset == b.has_subset
                &&& b2.options == b.options
                &&& b2.cur_attrs == b.cur_attrs
            },
            _ => true,
        },
    decreases rest.len(),
{
    if rest.len() != 0 {
        let a = rest[0];
        let idx_result: Result<Option<usize>, ErrorV> = if a.prefix == NS_XML_PREFIX@ {
            Ok(Some(0usize))
        } else if a.prefix.len() == 0 {
            Ok(None)
        } else {
            spec_get_ns_idx(b, ns_range, a.prefix, a.pos)
        };
        match idx_result {
            Err(_) => {},
            Ok(idx) => {
                let name = ExpandedNameV { namespace_idx: idx, local_name: a.local };
                if !spec_attr_dup(b.doc.attributes, b.doc.namespaces.values, start, name) {
                    let b2 = BuilderV {
                        doc: DocumentV {
                            attributes: b.doc.attributes.push(AttrV { name, value: a.value }),
                            ..b.doc
                        },
                        ..b
                    };
                    lemma_attr_fold_frame(b2, ns_range, rest.drop_first(), start);
                }
            },
        }
    }
}

impl Context {
    /// Computes the namespace scope of the element being opened.
    pub fn resolve_namespaces(&mut self) -> (r: ShortRange)
        requires
            spec_builder_bounds(old(self)@),
        ensures
            final(self)@ == spec_resolve_namespaces(old(self)@).0,
            r == spec_resolve_namespaces(old(self)@).1,
            spec_builder_bounds(final(self)@),
    {
        let ghost b0 = self@;
        let tol = self.doc.namespaces.tree_order.len();
        let pns_opt: Option<ShortRange> = match &self.doc.nodes[self.parent_id].kind {
            NodeKind::Element { namespaces, .. } => Some(*namespaces),
            _ => None,
        };
        match pns_opt {
            Some(pns) => {
                if self.namespace_start_idx == tol {
                    return pns;
                }
                let ghost ns0 = self.doc.namespaces@;
                let ghost start0 = self.namespace_start_idx as int;
                proof {
                    lemma_copy_ns_frame(ns0, start0, pns.start as int, pns.end as int);
                }
                let mut i: usize = pns.start;
                while i < pns.end
                    invariant
                        pns.start <= i,
                        i <= pns.end || pns.end < pns.start,
                        pns.end <= self.doc.namespaces@.tree_order.len(),
                        b0 == old(self)@,
                        start0 == b0.ns_start as int,
                        ns0 == b0.doc.namespaces,
                        self@ =~= (BuilderV {
                            doc: DocumentV { namespaces: self.doc.namespaces@, ..b0.doc },
                            ..b0
                        }),
                        forall|k: int|
                            0 <= k < self.doc.namespaces@.tree_order.len() ==> (
                            #[trigger] self.doc.namespaces@.tree_order[k] as int)
                                < self.doc.namespaces@.values.len(),
                        spec_copy_parent_ns(self.doc.namespaces@, start0, i as int, pns.end as int)
                            == spec_copy_parent_ns(ns0, start0, pns.start as int, pns.end as int),
                    decreases pns.end - i,
                {
                    let idx = self.doc.namespaces.tree_order[i];
                    let nm: Option<String> = match &self.doc.namespaces.values[idx].name {
                        Some(s) => Some(s.clone()),
                        None => None,
                    };
                    let nm_ref: Option<&str> = match &nm {
                        Some(s) => Some(s.as_str()),
                        None => None,
                    };
                    let ghost nsx = self.doc.namespaces@;
                    proof {
                        assert(match nm {
                            Some(ref s) => Some(s@),
                            None => None::<Seq<char>>,
                        } == nsx.values[idx as int].name);
                    }
                    let ex = self.doc.namespaces.exists_from(self.namespace_start_idx, nm_ref);
                    if !ex {
                        self.doc.namespaces.push_ref(i);
                    }
                    proof {
                        assert(spec_copy_parent_ns(nsx, start0, i as int, pns.end as int)
                            == spec_copy_parent_ns(self.doc.namespaces@, start0, i as int + 1,
                            pns.end as int));
                    }
                    i = i + 1;
                }
                let range = ShortRange::new(
                    self.namespace_start_idx,
                    self.doc.namespaces.tree_order.len(),
                );
                proof {
                    assert(final(self)@ =~= spec_resolve_namespaces(b0).0);
                }
                range
            },
            None => ShortRange::new(self.namespace_start_idx, tol),
        }
    }
}


/// Whether a namespace entry's prefix equals the given optional prefix.
fn name_matches(entry: &NamespaceEntry, name: Option<&str>) -> (r: bool)
    ensures
        r == (entry@.name == match name {
            Some(s) => Some(s@),
            None => None::<Seq<char>>,
        }),
{
    match (&entry.name, name) {
        (Some(a), Some(b)) => str_eq(a.as_str(), b),
        (None, None) => true,
        _ => false,
    }
}

/// Resolves a qualified-name prefix against a scope range.
pub fn get_ns_idx_by_prefix(
    namespaces: ShortRange,
    prefix_pos: usize,
    prefix: &str,
    ctx: &Context,
) -> (r: Result<Option<usize>, Error>)
    ensures
        match r {
            Ok(v) => spec_get_ns_idx(ctx@, namespaces, prefix@, prefix_pos) == Ok::<
                Option<usize>,
                ErrorV,
            >(v),
            Err(e) => spec_get_ns_idx(ctx@, namespaces, prefix@, prefix_pos) == Err::<
                Option<usize>,
                ErrorV,
            >(e@),
        },
{
    let prefix_empty = prefix.is_empty();
    let ghost name: Option<Seq<char>> = if prefix@.len() == 0 {
        None
    } else {
        Some(prefix@)
    };
    let tol = ctx.doc.namespaces.tree_order.len();
    let mut k: usize = namespaces.start;
    while k < namespaces.end && k < tol
        invariant
            namespaces.start <= k,
            tol == ctx.doc.namespaces@.tree_order.len(),
            prefix_empty == (prefix@.len() == 0),
            name == (if prefix@.len() == 0 {
                None::<Seq<char>>
            } else {
                Some(prefix@)
            }),
            spec_find_ns(ctx.doc.namespaces@, k as int, namespaces.end as int, name)
                == spec_find_ns(
                ctx.doc.namespaces@,
                namespaces.start as int,
                namespaces.end as int,
                name,
            ),
        decreases namespaces.end - k,
    {
        let idx = ctx.doc.namespaces.tree_order[k];
        if idx < ctx.doc.namespaces.values.len() {
            let pref_opt: Option<&str> = if prefix_empty {
                None
            } else {
                Some(prefix)
            };
            let entry_matches = name_matches(&ctx.doc.namespaces.values[idx], pref_opt);
            if entry_matches {
                proof {
                    assert(ctx.doc.namespaces@.values[idx as int] == ctx.doc.namespaces.values@[
                        idx as int
                    ]@);
                    assert(ctx.doc.namespaces@.values[idx as int].name == name);
                    assert(spec_find_ns(ctx.doc.namespaces@, k as int, namespaces.end as int, name)
                        == Some(idx));
                }
                return Ok(Some(idx));
            }
        }
        proof {
            assert(spec_find_ns(ctx.doc.namespaces@, k as int, namespaces.end as int, name)
                == spec_find_ns(ctx.doc.namespaces@, k as int + 1, namespaces.end as int, name));
        }
        k = k + 1;
    }
    proof {
        assert(spec_find_ns(ctx.doc.namespaces@, k as int, namespaces.end as int, name) is None);
    }
    if !prefix_empty {
        Err(Error::UnknownNamespace(prefix.to_owned(), ctx.err_pos_at(prefix_pos)))
    } else {
        Ok(None)
    }
}

/// Whether two expanded names resolve to the same namespace URI and local
/// name.
fn expanded_eq(
    a: &ExpandedNameIndexed,
    b: &ExpandedNameIndexed,
    values: &Vec<NamespaceEntry>,
) -> (r: bool)
    ensures
        r == spec_expanded_eq(a@, b@, values@.map_values(|e: NamespaceEntry| e@)),
{
    let ua: Option<&String> = match a.namespace_idx {
        Some(k) => if k < values.len() {
            Some(&values[k].uri)
        } else {
            None
        },
        None => None,
    };
    let ub: Option<&String> = match b.namespace_idx {
        Some(k) => if k < values.len() {
            Some(&values[k].uri)
        } else {
            None
        },
        None => None,
    };
    let uris_match = match (ua, ub) {
        (Some(x), Some(y)) => str_eq(x.as_str(), y.as_str()),
        (None, None) => true,
        _ => false,
    };
    uris_match && str_eq(a.local_name.as_str(), b.local_name.as_str())
}

/// Whether an attribute with this expanded name is already committed at or
/// after `start`.
fn attr_dup_exists(
    attrs: &Vec<AttributeData>,
    values: &Vec<NamespaceEntry>,
    start: usize,
    name: &ExpandedNameIndexed,
) -> (r: bool)
    ensures
        r == spec_attr_dup(
            attrs@.map_values(|x: AttributeData| x@),
            values@.map_values(|e: NamespaceEntry| e@),
            start as int,
            name@,
        ),
{
    let mut k: usize = start;
    if k > attrs.len() {
        return false;
    }
    while k < attrs.len()
        invariant
            start <= k <= attrs@.len(),
            forall|m: int|
                start <= m < k ==> !spec_expanded_eq(
                    (#[trigger] attrs@[m])@.name,
                    name@,
                    values@.map_values(|e: NamespaceEntry| e@),
                ),
        decreases attrs@.len() - k,
    {
        if expanded_eq(&attrs[k].name, name, values) {
            proof {
                assert(spec_expanded_eq(
                    attrs@.map_values(|x: AttributeData| x@)[k as int].name,
                    name@,
                    values@.map_values(|e: NamespaceEntry| e@),
                ));
            }
            return true;
        }
        proof {
            assert(attrs@.map_values(|x: AttributeData| x@)[k as int].name == (attrs@[
                k as int
            ])@.name);
        }
        k = k + 1;
    }
    false
}

/// Commits the staged attributes of the element being opened.
pub fn resolve_attributes(namespaces: ShortRange, ctx: &mut Context) -> (r: Result<
    ShortRange,
    Error,
>)
    requires
        spec_builder_bounds(old(ctx)@),
    ensures
        match r {
            Ok(sr) => spec_resolve_attributes(old(ctx)@, namespaces) == Ok::<
                (BuilderV, ShortRange),
                ErrorV,
            >((final(ctx)@, sr)),
            Err(e) => spec_resolve_attributes(old(ctx)@, namespaces) == Err::<
                (BuilderV, ShortRange),
                ErrorV,
            >(e@),
        },
{
    let ghost b0 = ctx@;
    if ctx.current_attributes.len() == 0 {
        return Ok(ShortRange::new(0, 0));
    }
    if (ctx.doc.attributes.len() as u128) + (ctx.current_attributes.len() as u128) >= (
    u32::MAX as u128) {
        return Err(Error::AttributesLimitReached);
    }
    let start_idx = ctx.doc.attributes.len();
    let mut tmp: Vec<TempAttributeData> = Vec::new();
    core::mem::swap(&mut tmp, &mut ctx.current_attributes);
    let ghost tv = tmp@.map_values(|a: TempAttributeData| a@);
    let ghost b1 = ctx@;
    proof {
        assert(b1 =~= (BuilderV { cur_attrs: Seq::empty(), ..b0 }));
        assert(tv.skip(0) =~= tv);
    }
    let mut k: usize = 0;
    while k < tmp.len()
        invariant
            0 <= k <= tv.len(),
            tv == tmp@.map_values(|a: TempAttributeData| a@),
            b0 == old(ctx)@,
            b1 == (BuilderV { cur_attrs: Seq::empty(), ..b0 }),
            start_idx == b0.doc.attributes.len(),
            spec_resolve_attributes(b0, namespaces) == spec_attr_fold(
                b1,
                namespaces,
                tv,
                start_idx as int,
            ),
            spec_attr_fold(ctx@, namespaces, tv.skip(k as int), start_idx as int) == spec_attr_fold(
                b1,
                namespaces,
                tv,
                start_idx as int,
            ),
        decreases tv.len() - k,
    {
        proof {
            assert(tv.skip(k as int)[0] == tv[k as int]);
            assert(tv.skip(k as int).drop_first() =~= tv.skip(k as int + 1));
        }
        let a_prefix_is_xml = str_eq(tmp[k].prefix.as_str(), NS_XML_PREFIX);
        let a_prefix_empty = tmp[k].prefix.as_str().is_empty();
        let idx_res: Result<Option<usize>, Error> = if a_prefix_is_xml {
            Ok(Some(0))
        } else if a_prefix_empty {
            Ok(None)
        } else {
            get_ns_idx_by_prefix(namespaces, tmp[k].pos, tmp[k].prefix.as_str(), ctx)
        };
        match idx_res {
            Err(e) => {
                proof {
                    assert(spec_attr_fold(ctx@, namespaces, tv.skip(k as int), start_idx as int)
                        == Err::<(BuilderV, ShortRange), ErrorV>(e@));
                }
                return Err(e);
            },
            Ok(idx) => {
                let attr_name = ExpandedNameIndexed {
                    namespace_idx: idx,
                    local_name: tmp[k].local.clone(),
                };
                if attr_dup_exists(&ctx.doc.attributes, &ctx.doc.namespaces.values, start_idx,
                    &attr_name) {
                    let p = ctx.err_pos_at(tmp[k].pos);
                    let e = Error::DuplicatedAttribute(tmp[k].local.clone(), p);
                    proof {
                        assert(spec_attr_fold(ctx@, namespaces, tv.skip(k as int),
                            start_idx as int) == Err::<(BuilderV, ShortRange), ErrorV>(e@));
                    }
                    return Err(e);
                }
                let ghost before = ctx@;
                ctx.doc.attributes.push(
                    AttributeData { name: attr_name, value: tmp[k].value.clone() },
                );
                proof {
                    assert(ctx@ =~= (BuilderV {
                        doc: DocumentV {
                            attributes: before.doc.attributes.push(
                                AttrV {
                                    name: ExpandedNameV {
                                        namespace_idx: idx,
                                        local_name: tv[k as int].local,
                                    },
                                    value: tv[k as int].value,
                                },
                            ),
                            ..before.doc
                        },
                        ..before
                    }));
                }
            },
        }
        k = k + 1;
    }
    proof {
        assert(tv.skip(tv.len() as int) =~= Seq::<TempAttrV>::empty());
    }
    Ok(ShortRange::new(start_idx, ctx.doc.attributes.len()))
}

/// Handles an attribute event: a namespace declaration is validated and
/// registered, anything else is staged for the element being opened.
pub fn process_attribute(
    prefix: String,
    local: String,
    value: String,
    pos: usize,
    value_pos: usize,
    ctx: &mut Context,
) -> (r: Result<(), Error>)
    requires
        spec_builder_bounds(old(ctx)@),
    ensures
        match r {
            Ok(_) => spec_process_attribute(old(ctx)@, prefix@, local@, value@, pos, value_pos)
                == Ok::<BuilderV, ErrorV>(final(ctx)@),
            Err(e) => spec_process_attribute(old(ctx)@, prefix@, local@, value@, pos, value_pos)
                == Err::<BuilderV, ErrorV>(e@),
        },
{
    let n = value.as_str().unicode_len();
    match normalize_attribute(value.as_str(), value_pos, &ctx.entities, ctx.has_subset) {
        Err(f) => {
            proof {
                crate::text::lemma_norm_attr_fault(
                    value@,
                    entities_view(ctx.entities@),
                    ctx.has_subset,
                    0,
                    value_pos as int,
                    Seq::<char>::empty(),
                );
            }
            Err(fault_to_error(f, value.as_str(), ctx.doc.text.as_str()))
        },
        Ok(norm) => {
            if str_eq(prefix.as_str(), XMLNS) {
                if str_eq(norm.as_str(), NS_XMLNS_URI) {
                    return Err(Error::UnexpectedXmlnsUri(ctx.err_pos_at(pos)));
                }
                let is_xml_ns_uri = str_eq(norm.as_str(), NS_XML_URI);
                if str_eq(local.as_str(), NS_XML_PREFIX) {
                    if !is_xml_ns_uri {
                        return Err(Error::InvalidXmlPrefixUri(ctx.err_pos_at(pos)));
                    }
                } else {
                    if is_xml_ns_uri {
                        return Err(Error::UnexpectedXmlUri(ctx.err_pos_at(pos)));
                    }
                }
                if ctx.doc.namespaces.exists_from(
                    ctx.namespace_start_idx,
                    Some(local.as_str()),
                ) {
                    let p = ctx.err_pos_at(pos);
                    return Err(Error::DuplicatedNamespace(local, p));
                }
                if !is_xml_ns_uri {
                    if ctx.doc.namespaces.values.len() > 0xFFFF {
                        return Err(Error::NamespacesLimitReached);
                    }
                    let ghost before = ctx@;
                    let ghost lv = local@;
                    let ghost nrm = norm@;
                    ctx.doc.namespaces.push_ns(Some(local), norm);
                    proof {
                        assert(final(ctx)@ =~= (BuilderV {
                            doc: DocumentV {
                                namespaces: spec_ns_push(before.doc.namespaces, Some(lv), nrm),
                                ..before.doc
                            },
                            ..before
                        }));
                    }
                }
                Ok(())
            } else if str_eq(local.as_str(), XMLNS) {
                if str_eq(norm.as_str(), NS_XML_URI) {
                    return Err(Error::UnexpectedXmlUri(ctx.err_pos_at(pos)));
                }
                if str_eq(norm.as_str(), NS_XMLNS_URI) {
                    return Err(Error::UnexpectedXmlnsUri(ctx.err_pos_at(pos)));
                }
                if ctx.doc.namespaces.values.len() > 0xFFFF {
                    return Err(Error::NamespacesLimitReached);
                }
                ctx.doc.namespaces.push_ns(None, norm);
                Ok(())
            } else {
                ctx.current_attributes.push(
                    TempAttributeData { prefix, local, value: norm, pos },
                );
                proof {
                    assert(final(ctx)@.cur_attrs =~= spec_process_attribute(
                        old(ctx)@,
                        prefix@,
                        local@,
                        value@,
                        pos,
                        value_pos,
                    )->Ok_0.cur_attrs);
                }
                Ok(())
            }
        },
    }
}

/// Handles an element-end event, for each of its three forms.
#[verifier::rlimit(100)]
pub fn process_element(end_token: ElementEnd, pos: usize, ctx: &mut Context) -> (r: Result<
    (),
    Error,
>)
    requires
        spec_builder_bounds(old(ctx)@),
    ensures
        match r {
            Ok(_) => spec_process_element(old(ctx)@, end_token, pos) == Ok::<BuilderV, ErrorV>(
                final(ctx)@,
            ),
            Err(e) => spec_process_element(old(ctx)@, end_token, pos) == Err::<BuilderV, ErrorV>(
                e@,
            ),
        },
{
    let ghost b0 = ctx@;
    if ctx.tag_name.name.as_str().is_empty() {
        // Arises when a close tag appears with nothing ever opened at this
        // level, e.g. out of an entity whose value holds markup.
        if matches!(end_token, ElementEnd::Close(_, _)) {
            return Err(Error::UnexpectedEntityCloseTag(ctx.err_pos_at(pos)));
        } else {
            return Err(Error::UnknownToken(ctx.err_pos_at(pos)));
        }
    }
    let namespaces = ctx.resolve_namespaces();
    let ghost b1x = ctx@;
    ctx.namespace_start_idx = ctx.doc.namespaces.tree_order.len();
    let ghost b1 = ctx@;
    proof {
        assert(b1 =~= (BuilderV {
            ns_start: b1x.doc.namespaces.tree_order.len() as usize,
            ..b1x
        }));
        assert(spec_builder_bounds(b1));
    }
    let attributes = match resolve_attributes(namespaces, ctx) {
        Ok(a) => a,
        Err(e) => {
            return Err(e);
        },
    };
    let ghost b2 = ctx@;
    proof {
        lemma_attr_fold_frame(
            BuilderV { cur_attrs: Seq::empty(), ..b1 },
            namespaces,
            b1.cur_attrs,
            b1.doc.attributes.len() as int,
        );
        assert(spec_builder_bounds(b2));
    }
    match end_token {
        ElementEnd::Empty => {
            let tag_ns_idx = match get_ns_idx_by_prefix(
                namespaces,
                ctx.tag_name.prefix_pos,
                ctx.tag_name.prefix.as_str(),
                ctx,
            ) {
                Ok(v) => v,
                Err(e) => {
                    return Err(e);
                },
            };
            let kind = NodeKind::Element {
                tag_name: ExpandedNameIndexed {
                    namespace_idx: tag_ns_idx,
                    local_name: ctx.tag_name.name.clone(),
                },
                attributes,
                namespaces,
            };
            let new_element_id = match ctx.append_node(kind) {
                Ok(id) => id,
                Err(e) => {
                    return Err(e);
                },
            };
            ctx.awaiting_subtree.push(new_element_id);
            proof {
                assert(final(ctx)@ =~= spec_process_element(b0, end_token, pos)->Ok_0);
            }
            Ok(())
        },
        ElementEnd::Close(prefix, local) => {
            let p = ctx.parent_id;
            let pparent = ctx.doc.nodes[p].parent;
            match pparent {
                None => Err(Error::UnexpectedEntityCloseTag(ctx.err_pos_at(pos))),
                Some(gp) => {
                    let lastp = ctx.parent_prefixes.len() - 1;
                    let mismatch = match &ctx.doc.nodes[p].kind {
                        NodeKind::Element { tag_name, .. } => !str_eq(
                            prefix.as_str(),
                            ctx.parent_prefixes[lastp].as_str(),
                        ) || !str_eq(local.as_str(), tag_name.local_name.as_str()),
                        _ => false,
                    };
                    if mismatch {
                        let expected = match &ctx.doc.nodes[p].kind {
                            NodeKind::Element { tag_name, .. } => gen_qname_string(
                                ctx.parent_prefixes[lastp].as_str(),
                                tag_name.local_name.as_str(),
                            ),
                            _ => String::new(),
                        };
                        let actual = gen_qname_string(prefix.as_str(), local.as_str());
                        let ep = ctx.err_pos_at(pos);
                        return Err(Error::UnexpectedCloseTag(expected, actual, ep));
                    }
                    ctx.awaiting_subtree.push(p);
                    ctx.parent_id = gp;
                    ctx.parent_prefixes.pop();
                    proof {
                        assert(final(ctx)@.prefixes =~= b2.prefixes.drop_last());
                        assert(final(ctx)@ =~= spec_process_element(b0, end_token, pos)->Ok_0);
                    }
                    Ok(())
                },
            }
        },
        ElementEnd::Open => {
            let tag_ns_idx = match get_ns_idx_by_prefix(
                namespaces,
                ctx.tag_name.prefix_pos,
                ctx.tag_name.prefix.as_str(),
                ctx,
            ) {
                Ok(v) => v,
                Err(e) => {
                    return Err(e);
                },
            };
            let kind = NodeKind::Element {
                tag_name: ExpandedNameIndexed {
                    namespace_idx: tag_ns_idx,
                    local_name: ctx.tag_name.name.clone(),
                },
                attributes,
                namespaces,
            };
            let new_element_id = match ctx.append_node(kind) {
                Ok(id) => id,
                Err(e) => {
                    return Err(e);
                },
            };
            ctx.parent_id = new_element_id;
            ctx.parent_prefixes.push(ctx.tag_name.prefix.clone());
            proof {
                assert(final(ctx)@.prefixes =~= spec_process_element(b0, end_token, pos)
                    ->Ok_0.prefixes);
                assert(final(ctx)@ =~= spec_process_element(b0, end_token, pos)->Ok_0);
            }
            Ok(())
        },
    }
}

/// Whether the id `j` stands in the awaiting list.
pub open spec fn spec_in_awaiting(aw: Seq<usize>, j: int) -> bool {
    exists|t: int| 0 <= t < aw.len() && aw[t] as int == j
}

/// Back-patching changes skip pointers only, and exactly those of the
/// awaiting ids.
proof fn lemma_patch_frame(nodes: Seq<NodeV>, awaiting: Seq<usize>, id: usize)
    ensures
        ({
            let r = spec_patch(nodes, awaiting, id);
            &&& r.len() == nodes.len()
            &&& (forall|j: int|
                0 <= j < nodes.len() ==> (#[trigger] r[j]).parent == nodes[j].parent && r[j].kind
                    == nodes[j].kind && r[j].last_child == nodes[j].last_child && r[j].prev_sibling
                    == nodes[j].prev_sibling)
            &&& (forall|j: int|
                0 <= j < nodes.len() ==> (#[trigger] r[j]).next_subtree == (
                if spec_in_awaiting(awaiting, j) {
                    Some(id)
                } else {
                    nodes[j].next_subtree
                }))
        }),
    decreases awaiting.len(),
{
    if awaiting.len() > 0 {
        let a = awaiting[0] as int;
        let nodes1 = if 0 <= a < nodes.len() {
            nodes.update(a, NodeV { next_subtree: Some(id), ..nodes[a] })
        } else {
            nodes
        };
        lemma_patch_frame(nodes1, awaiting.drop_first(), id);
        assert forall|j: int| 0 <= j < nodes.len() implies (#[trigger] spec_patch(
            nodes,
            awaiting,
            id,
        )[j]).next_subtree == (if spec_in_awaiting(awaiting, j) {
            Some(id)
        } else {
            nodes[j].next_subtree
        }) by {
            if spec_in_awaiting(awaiting, j) {
                if j != a {
                    let t = choose|t: int|
                        0 <= t < awaiting.len() && awaiting[t] as int == j;
                    assert(awaiting.drop_first()[t - 1] as int == j);
                    assert(spec_in_awaiting(awaiting.drop_first(), j));
                }
            } else {
                assert(forall|t: int|
                    0 <= t < awaiting.drop_first().len() ==> #[trigger] awaiting.drop_first()[t]
                        == awaiting[t + 1]);
            }
        }
    }
}

/// The depth of a node is never negative.
proof fn lemma_depth_nonneg(nodes: Seq<NodeV>, j: int)
    ensures
        spec_depth(nodes, j) >= 0,
    decreases j,
{
    if 0 < j < nodes.len() {
        match nodes[j].parent {
            Some(p) => {
                if (p as int) < j {
                    lemma_depth_nonneg(nodes, p as int);
                }
            },
            None => {},
        }
    }
}

/// The depth of a node only depends on the parent links of the nodes below
/// it.
proof fn lemma_depth_same(nodes1: Seq<NodeV>, nodes2: Seq<NodeV>, j: int)
    requires
        0 <= j < nodes1.len(),
        nodes1.len() <= nodes2.len(),
        forall|k: int| 0 <= k < nodes1.len() ==> (#[trigger] nodes2[k]).parent == nodes1[k].parent,
    ensures
        spec_depth(nodes2, j) == spec_depth(nodes1, j),
    decreases j,
{
    if j > 0 {
        match nodes1[j].parent {
            Some(p) => {
                if (p as int) < j {
                    lemma_depth_same(nodes1, nodes2, p as int);
                }
            },
            None => {},
        }
    }
}

/// Appending a node preserves the builder bounds; the current parent keeps
/// its depth.
proof fn lemma_append_bounds(b: BuilderV, kind: NodeKindV)
    requires
        spec_builder_bounds(b),
        b.doc.nodes.len() < usize::MAX,
        !(kind is Root),
        (kind matches NodeKindV::Element { namespaces, .. } ==> namespaces.start
            <= namespaces.end <= b.doc.namespaces.tree_order.len()),
    ensures
        match spec_append_node(b, kind) {
            Ok(p) => {
                let b2 = p.0;
                &&& spec_builder_bounds(b2)
                &&& b2.doc.nodes.len() == b.doc.nodes.len() + 1
                &&& spec_depth(b2.doc.nodes, b2.parent as int) == spec_depth(
                    b.doc.nodes,
                    b.parent as int,
                )
                &&& p.1 as int == b.doc.nodes.len()
                &&& b2.doc.nodes[p.1 as int].parent == Some(b.parent)
                &&& b2.doc.nodes[p.1 as int].kind == kind
                &&& spec_depth(b2.doc.nodes, p.1 as int) == spec_depth(
                    b.doc.nodes,
                    b.parent as int,
                ) + 1
                &&& b2.parent == b.parent
                &&& b2.prefixes == b.prefixes
                &&& b2.doc.namespaces == b.doc.namespaces
            },
            Err(_) => true,
        },
{
    if b.doc.nodes.len() < b.options.nodes_limit {
        let new_id = b.doc.nodes.len() as usize;
        let p = b.parent as int;
        let node = NodeV {
            parent: Some(b.parent),
            prev_sibling: b.doc.nodes[p].last_child,
            next_subtree: None,
            last_child: None,
            kind,
        };
        let nodes1 = b.doc.nodes.push(node);
        let nodes2 = nodes1.update(p, NodeV { last_child: Some(new_id), ..nodes1[p] });
        let nodes3 = spec_patch(nodes2, b.awaiting, new_id);
        lemma_patch_frame(nodes2, b.awaiting, new_id);
        assert(forall|k: int|
            0 <= k < b.doc.nodes.len() ==> (#[trigger] nodes3[k]).parent
                == b.doc.nodes[k].parent);
        lemma_depth_same(b.doc.nodes, nodes3, b.parent as int);
        assert(spec_depth(nodes3, new_id as int) == 1 + spec_depth(nodes3, p));
    }
}


/// Bounds preservation for an element-end event.
#[verifier::rlimit(100)]
#[verifier::spinoff_prover]
proof fn lemma_element_end_bounds(b: BuilderV, t: Event, end: ElementEnd, pos: usize)
    requires
        spec_builder_bounds(b),
        b.doc.namespaces.tree_order.len() <= usize::MAX,
        t == (Event::ElementEnd { end, pos }),
        (spec_token_step(b, t) matches Ok(b2) ==> b2.doc.namespaces.tree_order.len()
            <= usize::MAX && b2.doc.nodes.len() <= usize::MAX),
    ensures
        (spec_token_step(b, t) matches Ok(b2) ==> spec_builder_bounds(b2)),
{
    if b.tag.name.len() != 0 && spec_token_step(b, t) is Ok {
                let bf = spec_token_step(b, t)->Ok_0;
                let br = spec_resolve_namespaces(b);
                let b1a = br.0;
                let namespaces = br.1;
                if 0 <= b.parent < b.doc.nodes.len() {
                    match b.doc.nodes[b.parent as int].kind {
                        NodeKindV::Element { namespaces: pns, .. } => {
                            if b.ns_start != b.doc.namespaces.tree_order.len() {
                                lemma_copy_ns_frame(
                                    b.doc.namespaces,
                                    b.ns_start as int,
                                    pns.start as int,
                                    pns.end as int,
                                );
                            }
                        },
                        _ => {},
                    }
                }
                let b1 = BuilderV {
                    ns_start: b1a.doc.namespaces.tree_order.len() as usize,
                    ..b1a
                };
                match spec_resolve_attributes(b1, namespaces) {
                    Err(_) => {},
                    Ok(pr) => {
                        let b2 = pr.0;
                        let attributes = pr.1;
                        if b1.cur_attrs.len() != 0 {
                            lemma_attr_fold_frame(
                                BuilderV { cur_attrs: Seq::empty(), ..b1 },
                                namespaces,
                                b1.cur_attrs,
                                b1.doc.attributes.len() as int,
                            );
                        }
                        assert(b2.doc.namespaces == b1a.doc.namespaces);
                        match end {
                            ElementEnd::Empty => {
                                match spec_get_ns_idx(b2, namespaces, b.tag.prefix,
                                    b.tag.prefix_pos) {
                                    Err(_) => {},
                                    Ok(tag_ns_idx) => {
                                        let kind = NodeKindV::Element {
                                            tag_name: ExpandedNameV {
                                                namespace_idx: tag_ns_idx,
                                                local_name: b.tag.name,
                                            },
                                            attributes,
                                            namespaces,
                                        };
                                        match spec_append_node(b2, kind) {
                                            Err(_) => {},
                                            Ok(ap) => {
                                                assert(bf.doc.namespaces
                                                    == b2.doc.namespaces);
                                                assert(b1a.doc.namespaces.tree_order.len()
                                                    <= usize::MAX);
                                                assert(spec_builder_bounds(b1));
                                                assert(namespaces.start <= namespaces.end
                                                    <= b1.doc.namespaces.tree_order.len());
                                                assert(spec_builder_bounds(b2));
                                                assert(b2.doc.nodes.len() < usize::MAX);
                                                lemma_append_bounds(b2, kind);
                                                let b3 = ap.0;
                                                assert(bf =~= (BuilderV {
                                                    after_text: false,
                                                    ..BuilderV {
                                                        awaiting: b3.awaiting.push(ap.1),
                                                        ..b3
                                                    }
                                                }));
                                                assert(forall|q: int|
                                                    0 <= q < bf.awaiting.len() ==> (
                                                    #[trigger] bf.awaiting[q] as int)
                                                        < bf.doc.nodes.len());
                                                assert(spec_builder_bounds(bf));
                                            },
                                        }
                                    },
                                }
                            },
                            ElementEnd::Close(_, _) => {
                                let p = b2.parent as int;
                                match b2.doc.nodes[p].parent {
                                    None => {},
                                    Some(gp) => {
                                        assert(bf.doc.namespaces == b2.doc.namespaces);
                                        assert(b1a.doc.namespaces.tree_order.len()
                                            <= usize::MAX);
                                        assert(spec_builder_bounds(b1));
                                        assert(namespaces.start <= namespaces.end
                                            <= b1.doc.namespaces.tree_order.len());
                                        assert(spec_builder_bounds(b2));
                                        assert(spec_depth(b2.doc.nodes, p) == 1 + spec_depth(
                                            b2.doc.nodes,
                                            gp as int,
                                        ));
                                        assert(p > 0);
                                        lemma_depth_nonneg(b2.doc.nodes, gp as int);
                                        assert((gp as int) < p);
                                        assert(!(b2.doc.nodes[gp as int].kind is Text));
                                        assert(bf.prefixes.len() == b2.prefixes.len() - 1);
                                        assert(bf.prefixes.len() >= 1);
                                        assert(forall|q: int|
                                            0 <= q < bf.awaiting.len() ==> (
                                            #[trigger] bf.awaiting[q] as int)
                                                < bf.doc.nodes.len());
                                        assert(spec_builder_bounds(bf));
                                    },
                                }
                            },
                            ElementEnd::Open => {
                                match spec_get_ns_idx(b2, namespaces, b.tag.prefix,
                                    b.tag.prefix_pos) {
                                    Err(_) => {},
                                    Ok(tag_ns_idx) => {
                                        let kind = NodeKindV::Element {
                                            tag_name: ExpandedNameV {
                                                namespace_idx: tag_ns_idx,
                                                local_name: b.tag.name,
                                            },
                                            attributes,
                                            namespaces,
                                        };
                                        match spec_append_node(b2, kind) {
                                            Err(_) => {},
                                            Ok(ap) => {
                                                assert(bf.doc.namespaces
                                                    == b2.doc.namespaces);
                                                assert(b1a.doc.namespaces.tree_order.len()
                                                    <= usize::MAX);
                                                assert(spec_builder_bounds(b1));
                                                assert(namespaces.start <= namespaces.end
                                                    <= b1.doc.namespaces.tree_order.len());
                                                assert(spec_builder_bounds(b2));
                                                assert(b2.doc.nodes.len() < usize::MAX);
                                                lemma_append_bounds(b2, kind);
                                                assert(spec_builder_bounds(bf));
                                            },
                                        }
                                    },
                                }
                            },
                        }
                    },
                }
            }
        
}

/// Whether node `j` is still open: the current parent or one of its
/// ancestors. Open nodes are exactly those whose subtree is still growing.
pub open spec fn spec_open(b: BuilderV, j: int) -> bool {
    j == b.parent as int || spec_anc(b.doc.nodes, b.parent as int, j)
}

/// The structural invariant of a build in progress.
///
/// Every open node still awaits its skip pointer and everything appended
/// later sits inside its subtree; every other node's subtree is a finished
/// contiguous interval whose skip pointer is set, or pending in the
/// awaiting list when the interval still touches the arena's end.
pub open spec fn spec_builder_inv(b: BuilderV) -> bool {
    let nodes = b.doc.nodes;
    &&& spec_builder_bounds(b)
    &&& crate::tree::spec_wf_children(nodes)
    &&& (forall|j: int|
        0 <= j < nodes.len() && spec_open(b, j) ==> (#[trigger] nodes[j].next_subtree) is None)
    &&& (forall|j: int, k: int|
        0 <= j < nodes.len() && #[trigger] spec_open(b, j) && j < k < nodes.len()
            ==> #[trigger] spec_anc(nodes, k, j))
    &&& (forall|j: int|
        0 <= j < nodes.len() && !spec_open(b, j) ==> #[trigger] spec_settled(b, j))
    &&& (forall|t: int|
        0 <= t < b.awaiting.len() ==> !spec_open(b, #[trigger] b.awaiting[t] as int) && nodes[
            b.awaiting[t] as int
        ].next_subtree is None && (b.awaiting[t] as int) < nodes.len())
}

/// A closed node's subtree is the contiguous interval `[j, end)`; its skip
/// pointer is the end where more nodes follow, else the node is pending in
/// the awaiting list.
pub open spec fn spec_settled(b: BuilderV, j: int) -> bool {
    let nodes = b.doc.nodes;
    let e = spec_end(nodes, j);
    &&& j < e <= nodes.len()
    &&& (nodes[j].next_subtree is Some ==> e < nodes.len())
    &&& (nodes[j].next_subtree is None ==> spec_in_awaiting(b.awaiting, j))
    &&& (forall|k: int| j < k < e ==> #[trigger] spec_anc(nodes, k, j))
    &&& (forall|k: int| e <= k < nodes.len() ==> !#[trigger] spec_anc(nodes, k, j))
}

/// An ancestor always has a smaller id.
proof fn lemma_anc_smaller(nodes: Seq<NodeV>, k: int, j: int)
    ensures
        spec_anc(nodes, k, j) ==> j < k,
    decreases k,
{
    if 0 < k < nodes.len() {
        match nodes[k].parent {
            Some(p) => {
                if (p as int) < k {
                    lemma_anc_smaller(nodes, p as int, j);
                }
            },
            None => {},
        }
    }
}

/// Ancestry only depends on the parent links below the node, so it is
/// stable under appending nodes and updating other fields.
proof fn lemma_anc_stable(nodes1: Seq<NodeV>, nodes2: Seq<NodeV>, k: int, j: int)
    requires
        nodes1.len() <= nodes2.len(),
        forall|m: int| 0 <= m < nodes1.len() ==> (#[trigger] nodes2[m]).parent == nodes1[m].parent,
        0 <= k < nodes1.len(),
    ensures
        spec_anc(nodes2, k, j) == spec_anc(nodes1, k, j),
    decreases k,
{
    if 0 < k < nodes1.len() {
        match nodes1[k].parent {
            Some(p) => {
                if (p as int) < k {
                    lemma_anc_stable(nodes1, nodes2, p as int, j);
                }
            },
            None => {},
        }
    }
}

/// What appending one node does to the arena: everything old keeps its
/// links except the patched skip pointers and the parent's last child, the
/// new node hangs under the current parent, and ancestry grows by exactly
/// the new leaf under the open chain.
proof fn lemma_append_core(b: BuilderV, kind: NodeKindV)
    requires
        spec_builder_inv(b),
        b.doc.nodes.len() < usize::MAX,
        !(kind is Root),
        (kind matches NodeKindV::Element { namespaces, .. } ==> namespaces.start
            <= namespaces.end <= b.doc.namespaces.tree_order.len()),
    ensures
        (spec_append_node(b, kind) matches Ok(p) ==> ({
            let b2 = p.0;
            let n = p.1 as int;
            let nodes0 = b.doc.nodes;
            let nodes = b2.doc.nodes;
            &&& n == nodes0.len()
            &&& nodes.len() == n + 1
            &&& (forall|j: int|
                0 <= j < n ==> (#[trigger] nodes[j]).parent == nodes0[j].parent && nodes[j].kind
                    == nodes0[j].kind)
            &&& nodes[n].parent == Some(b.parent)
            &&& nodes[n].kind == kind
            &&& nodes[n].next_subtree is None
            &&& nodes[n].last_child is None
            &&& (forall|k: int, j: int|
                0 <= j < n && 0 <= k < n ==> #[trigger] spec_anc(nodes, k, j) == spec_anc(
                    nodes0,
                    k,
                    j,
                ))
            &&& (forall|j: int|
                0 <= j < n ==> #[trigger] spec_anc(nodes, n, j) == (j == b.parent as int
                    || spec_anc(nodes0, b.parent as int, j)))
            &&& (forall|j: int|
                0 <= j < n ==> (#[trigger] nodes[j]).next_subtree == (if spec_in_awaiting(
                    b.awaiting,
                    j,
                ) {
                    Some(p.1)
                } else {
                    nodes0[j].next_subtree
                }))
            &&& crate::tree::spec_wf_children(nodes)
            &&& spec_builder_bounds(b2)
            &&& b2.parent == b.parent
            &&& b2.prefixes == b.prefixes
            &&& b2.doc.namespaces == b.doc.namespaces
            &&& b2.awaiting == (if kind is Element {
                Seq::<usize>::empty()
            } else {
                seq![p.1]
            })
        })),
{
    if b.doc.nodes.len() < b.options.nodes_limit {
        let nodes0 = b.doc.nodes;
        let new_id = nodes0.len() as usize;
        let n = new_id as int;
        let pp = b.parent as int;
        let node = NodeV {
            parent: Some(b.parent),
            prev_sibling: nodes0[pp].last_child,
            next_subtree: None,
            last_child: None,
            kind,
        };
        let nodes1 = nodes0.push(node);
        let nodes2 = nodes1.update(pp, NodeV { last_child: Some(new_id), ..nodes1[pp] });
        let nodes3 = spec_patch(nodes2, b.awaiting, new_id);
        lemma_patch_frame(nodes2, b.awaiting, new_id);
        lemma_append_bounds(b, kind);
        assert(forall|m: int|
            0 <= m < nodes0.len() ==> (#[trigger] nodes3[m]).parent == nodes0[m].parent);
        assert forall|k: int, j: int| 0 <= j < n && 0 <= k < n implies #[trigger] spec_anc(
            nodes3,
            k,
            j,
        ) == spec_anc(nodes0, k, j) by {
            lemma_anc_stable(nodes0, nodes3, k, j);
        }
        assert forall|j: int| 0 <= j < n implies #[trigger] spec_anc(nodes3, n, j) == (j == pp
            || spec_anc(nodes0, pp, j)) by {
            if pp < n {
                lemma_anc_stable(nodes0, nodes3, pp, j);
            }
        }
        // Last-child links: the new node is the parent's greatest child and
        // has none of its own.
        assert forall|j: int| 0 <= j < nodes3.len() implies match #[trigger] nodes3[j].last_child {
            Some(c) => j < c < nodes3.len() && nodes3[c as int].parent == Some(j as usize) && (
            forall|k: int| c < k < nodes3.len() ==> #[trigger] nodes3[k].parent != Some(j as usize)),
            None => forall|k: int|
                0 <= k < nodes3.len() ==> #[trigger] nodes3[k].parent != Some(j as usize),
        } by {
            if j == pp {
                assert(nodes3[j].last_child == Some(new_id));
                assert(nodes3[n].parent == Some(b.parent));
            } else if j < n {
                assert(nodes3[j].last_child == nodes0[j].last_child);
                assert(nodes3[n].parent == Some(b.parent));
                assert(b.parent as int != j);
            } else {
                assert(nodes3[j].last_child is None);
            }
        }
    }
}

/// Appending a node that stays closed (a text run or an empty element)
/// preserves the invariant: the new node is settled and alone awaits its
/// skip pointer.
proof fn lemma_append_inv_settled(b: BuilderV, kind: NodeKindV)
    requires
        spec_builder_inv(b),
        b.doc.nodes.len() < usize::MAX,
        !(kind is Root),
        (kind matches NodeKindV::Element { namespaces, .. } ==> namespaces.start
            <= namespaces.end <= b.doc.namespaces.tree_order.len()),
    ensures
        (spec_append_node(b, kind) matches Ok(p) ==> spec_builder_inv(
            BuilderV { awaiting: seq![p.1], ..p.0 },
        )),
{
    lemma_append_core(b, kind);
    match spec_append_node(b, kind) {
        Err(_) => {},
        Ok(p) => {
            let bf = BuilderV { awaiting: seq![p.1], ..p.0 };
            let n = p.1 as int;
            let nodes0 = b.doc.nodes;
            let nodes = bf.doc.nodes;
            let pp = b.parent as int;
            assert forall|j: int| 0 <= j < nodes.len() implies (#[trigger] spec_open(bf, j))
                == (j < n && spec_open(b, j)) by {
                if j < n {
                    lemma_anc_smaller(nodes0, pp, j);
                } else {
                    lemma_anc_smaller(nodes, pp, n);
                }
            }
            assert forall|j: int|
                0 <= j < nodes.len() && spec_open(bf, j) implies (#[trigger] nodes[j].next_subtree)
                is None by {
                assert(!spec_in_awaiting(b.awaiting, j));
            }
            assert forall|j: int, k: int|
                0 <= j < nodes.len() && #[trigger] spec_open(bf, j) && j < k
                    < nodes.len() implies #[trigger] spec_anc(nodes, k, j) by {
                if k < n {
                    assert(spec_anc(nodes0, k, j));
                } else {
                    assert(spec_anc(nodes, n, j) == (j == pp || spec_anc(nodes0, pp, j)));
                }
            }
            assert forall|j: int|
                0 <= j < nodes.len() && !spec_open(bf, j) implies #[trigger] spec_settled(
                bf,
                j,
            ) by {
                if j < n {
                    if spec_open(b, j) {
                        // An open node of the old state other than those
                        // still open: impossible, openness is unchanged.
                        assert(false);
                    } else {
                        assert(spec_settled(b, j));
                        assert(!spec_anc(nodes, n, j));
                        if nodes0[j].next_subtree is Some {
                            assert(!spec_in_awaiting(b.awaiting, j));
                            assert(nodes[j].next_subtree == nodes0[j].next_subtree);
                            assert forall|k: int|
                                j < k < spec_end(nodes, j) implies #[trigger] spec_anc(
                                nodes,
                                k,
                                j,
                            ) by {
                                assert(spec_anc(nodes0, k, j));
                            }
                        } else {
                            assert(spec_in_awaiting(b.awaiting, j));
                            assert(nodes[j].next_subtree == Some(p.1));
                            assert(spec_end(nodes, j) == n);
                            assert forall|k: int| j < k < n implies #[trigger] spec_anc(
                                nodes,
                                k,
                                j,
                            ) by {
                                assert(spec_anc(nodes0, k, j));
                            }
                        }
                    }
                } else {
                    assert(nodes[n].next_subtree is None);
                    assert(spec_end(nodes, n) == nodes.len());
                    assert(spec_in_awaiting(bf.awaiting, n)) by {
                        assert(bf.awaiting[0] as int == n);
                    }
                    assert forall|k: int|
                        spec_end(nodes, n) <= k < nodes.len() implies !#[trigger] spec_anc(
                        nodes,
                        k,
                        n,
                    ) by {}
                }
            }
            assert forall|t: int| 0 <= t < bf.awaiting.len() implies !spec_open(
                bf,
                #[trigger] bf.awaiting[t] as int,
            ) && nodes[bf.awaiting[t] as int].next_subtree is None && (bf.awaiting[t] as int)
                < nodes.len() by {
                assert(bf.awaiting[t] == p.1);
            }
        },
    }
}

/// Opening an element preserves the invariant: the new node becomes the
/// current parent and nothing awaits a skip pointer.
proof fn lemma_append_inv_open(b: BuilderV, kind: NodeKindV, pfx: Seq<char>)
    requires
        spec_builder_inv(b),
        b.doc.nodes.len() < usize::MAX,
        kind is Element,
        (kind matches NodeKindV::Element { namespaces, .. } ==> namespaces.start
            <= namespaces.end <= b.doc.namespaces.tree_order.len()),
    ensures
        (spec_append_node(b, kind) matches Ok(p) ==> spec_builder_inv(
            BuilderV { parent: p.1, prefixes: b.prefixes.push(pfx), ..p.0 },
        )),
{
    lemma_append_core(b, kind);
    match spec_append_node(b, kind) {
        Err(_) => {},
        Ok(p) => {
            let bf = BuilderV { parent: p.1, prefixes: b.prefixes.push(pfx), ..p.0 };
            let n = p.1 as int;
            let nodes0 = b.doc.nodes;
            let nodes = bf.doc.nodes;
            let pp = b.parent as int;
            assert(spec_depth(nodes, n) == 1 + spec_depth(nodes, pp)) by {
                lemma_depth_same(nodes0, nodes, pp);
            }
            assert(spec_depth(nodes, pp) == spec_depth(nodes0, pp)) by {
                lemma_depth_same(nodes0, nodes, pp);
            }
            assert forall|j: int| 0 <= j < nodes.len() implies (#[trigger] spec_open(bf, j))
                == (j == n || spec_open(b, j)) by {
                if j < n {
                    assert(spec_anc(nodes, n, j) == (j == pp || spec_anc(nodes0, pp, j)));
                } else {
                    assert(j == n);
                }
            }
            assert forall|j: int|
                0 <= j < nodes.len() && spec_open(bf, j) implies (#[trigger] nodes[j].next_subtree)
                is None by {
                if j < n {
                    assert(!spec_in_awaiting(b.awaiting, j));
                }
            }
            assert forall|j: int, k: int|
                0 <= j < nodes.len() && #[trigger] spec_open(bf, j) && j < k
                    < nodes.len() implies #[trigger] spec_anc(nodes, k, j) by {
                if j < n {
                    if k < n {
                        assert(spec_anc(nodes0, k, j));
                    } else {
                        assert(spec_anc(nodes, n, j) == (j == pp || spec_anc(nodes0, pp, j)));
                    }
                }
            }
            assert forall|j: int|
                0 <= j < nodes.len() && !spec_open(bf, j) implies #[trigger] spec_settled(
                bf,
                j,
            ) by {
                assert(j < n);
                assert(!spec_open(b, j));
                assert(spec_settled(b, j));
                lemma_anc_smaller(nodes0, pp, j);
                assert(!spec_anc(nodes, n, j));
                if nodes0[j].next_subtree is Some {
                    assert(!spec_in_awaiting(b.awaiting, j));
                    assert(nodes[j].next_subtree == nodes0[j].next_subtree);
                    assert forall|k: int| j < k < spec_end(nodes, j) implies #[trigger] spec_anc(
                        nodes,
                        k,
                        j,
                    ) by {
                        assert(spec_anc(nodes0, k, j));
                    }
                } else {
                    assert(spec_in_awaiting(b.awaiting, j));
                    assert(nodes[j].next_subtree == Some(p.1));
                    assert(spec_end(nodes, j) == n);
                    assert forall|k: int| j < k < n implies #[trigger] spec_anc(
                        nodes,
                        k,
                        j,
                    ) by {
                        assert(spec_anc(nodes0, k, j));
                    }
                }
            }
        },
    }
}

/// Closing the current element preserves the invariant: the node becomes
/// settled and pending, and its parent is open again.
proof fn lemma_close_inv(b: BuilderV, gp: usize)
    requires
        spec_builder_inv(b),
        b.doc.nodes[b.parent as int].parent == Some(gp),
    ensures
        spec_builder_inv(
            BuilderV {
                awaiting: b.awaiting.push(b.parent),
                parent: gp,
                prefixes: b.prefixes.drop_last(),
                ..b
            },
        ),
{
    let bf = BuilderV {
        awaiting: b.awaiting.push(b.parent),
        parent: gp,
        prefixes: b.prefixes.drop_last(),
        ..b
    };
    let nodes = b.doc.nodes;
    let pp = b.parent as int;
    assert(pp > 0);
    assert((gp as int) < pp);
    lemma_depth_nonneg(nodes, gp as int);
    assert(spec_depth(nodes, pp) == 1 + spec_depth(nodes, gp as int));
    assert(!(nodes[gp as int].kind is Text));
    // Openness in the new state is openness in the old one, less the node
    // just closed.
    assert forall|j: int| 0 <= j < nodes.len() implies (#[trigger] spec_open(bf, j)) == (
    spec_open(b, j) && j != pp) by {
        lemma_anc_smaller(nodes, gp as int, pp);
        lemma_anc_smaller(nodes, gp as int, j);
        if j == pp {
            lemma_anc_smaller(nodes, gp as int, pp);
        } else {
            assert(spec_anc(nodes, pp, j) == (j == gp as int || spec_anc(nodes, gp as int, j)));
        }
    }
    assert forall|j: int|
        0 <= j < nodes.len() && !spec_open(bf, j) implies #[trigger] spec_settled(bf, j) by {
        if j == pp {
            assert(spec_open(b, pp));
            assert(nodes[pp].next_subtree is None);
            assert(spec_end(nodes, pp) == nodes.len());
            assert(forall|k: int| pp < k < nodes.len() ==> #[trigger] spec_anc(nodes, k, pp));
            assert(spec_in_awaiting(bf.awaiting, pp)) by {
                assert(bf.awaiting[b.awaiting.len() as int] as int == pp);
            }
        } else {
            assert(spec_settled(b, j));
            if nodes[j].next_subtree is None {
                assert(spec_in_awaiting(b.awaiting, j));
                let t = choose|t: int| 0 <= t < b.awaiting.len() && b.awaiting[t] as int == j;
                assert(bf.awaiting[t] as int == j);
                assert(spec_in_awaiting(bf.awaiting, j));
            }
        }
    }
    assert forall|t: int| 0 <= t < bf.awaiting.len() implies !spec_open(
        bf,
        #[trigger] bf.awaiting[t] as int,
    ) && nodes[bf.awaiting[t] as int].next_subtree is None && (bf.awaiting[t] as int)
        < nodes.len() by {
        if t < b.awaiting.len() {
            assert(bf.awaiting[t] == b.awaiting[t]);
        } else {
            assert(bf.awaiting[t] as int == pp);
        }
    }
}

/// The structural clauses only read the arena, the current parent and the
/// awaiting list: two states sharing those share the invariant.
proof fn lemma_inv_transfer(b1: BuilderV, b2: BuilderV)
    requires
        spec_builder_inv(b1),
        spec_builder_bounds(b2),
        b2.doc.nodes == b1.doc.nodes,
        b2.parent == b1.parent,
        b2.awaiting == b1.awaiting,
    ensures
        spec_builder_inv(b2),
{
    assert(forall|j: int| #[trigger] spec_open(b2, j) == spec_open(b1, j));
    assert forall|j: int|
        0 <= j < b2.doc.nodes.len() && !spec_open(b2, j) implies #[trigger] spec_settled(
        b2,
        j,
    ) by {
        assert(spec_settled(b1, j));
    }
}

/// Every successful step preserves the structural invariant.
pub proof fn lemma_step_inv(b: BuilderV, t: Event)
    requires
        spec_builder_inv(b),
        b.doc.namespaces.tree_order.len() <= usize::MAX,
        (spec_token_step(b, t) matches Ok(b2) ==> b2.doc.namespaces.tree_order.len()
            <= usize::MAX && b2.doc.nodes.len() <= usize::MAX),
    ensures
        (spec_token_step(b, t) matches Ok(b2) ==> spec_builder_inv(b2)),
{
    lemma_step_bounds(b, t);
    if spec_token_step(b, t) is Ok {
        let bf = spec_token_step(b, t)->Ok_0;
        match t {
            Event::ElementStart { .. } => {
                lemma_inv_transfer(b, bf);
            },
            Event::Attribute { .. } => {
                lemma_inv_transfer(b, bf);
            },
            Event::EntityDefinition { .. } => {
                lemma_inv_transfer(b, bf);
            },
            Event::DtdStart => {
                lemma_inv_transfer(b, bf);
            },
            Event::Text { text, pos } => {
                lemma_text_step_inv(b, t);
            },
            Event::Cdata { text, pos } => {
                lemma_text_step_inv(b, t);
            },
            Event::ElementEnd { end, pos } => {
                lemma_element_end_inv(b, t, end, pos);
            },
        }
    }
}

/// Committing or merging text preserves the structural invariant.
proof fn lemma_text_step_inv(b: BuilderV, t: Event)
    requires
        spec_builder_inv(b),
        (t is Text || t is Cdata),
        spec_token_step(b, t) is Ok,
        spec_token_step(b, t)->Ok_0.doc.nodes.len() <= usize::MAX,
        spec_builder_bounds(spec_token_step(b, t)->Ok_0),
    ensures
        spec_builder_inv(spec_token_step(b, t)->Ok_0),
{
    let bf = spec_token_step(b, t)->Ok_0;
    let content: Seq<char> = match t {
        Event::Text { text, pos } => match spec_text_content(
            text@,
            b.entities,
            b.has_subset,
            pos as int,
        ) {
            Ok(c) => c,
            Err(_) => Seq::empty(),
        },
        Event::Cdata { text, .. } => text@,
        _ => Seq::empty(),
    };
    let commits: bool = match t {
        Event::Text { text, pos } => !spec_text_special(text@) || content.len() > 0,
        _ => true,
    };
    if commits {
        if b.after_text {
            let last = b.doc.nodes.len() - 1;
            if b.doc.nodes.len() > 0 && b.doc.nodes[last].kind is Text {
                let prev = b.doc.nodes[last].kind->Text_0;
                let nodes1 = b.doc.nodes.update(
                    last,
                    NodeV { kind: NodeKindV::Text(prev + content), ..b.doc.nodes[last] },
                );
                assert forall|k: int, j: int| 0 <= k < nodes1.len() implies #[trigger] spec_anc(
                    nodes1,
                    k,
                    j,
                ) == spec_anc(b.doc.nodes, k, j) by {
                    lemma_anc_stable(b.doc.nodes, nodes1, k, j);
                }
                assert(forall|j: int| #[trigger] spec_open(bf, j) == spec_open(b, j));
                assert forall|j: int|
                    0 <= j < nodes1.len() && !spec_open(bf, j) implies #[trigger] spec_settled(
                    bf,
                    j,
                ) by {
                    assert(spec_settled(b, j));
                    assert forall|k: int|
                        j < k < spec_end(nodes1, j) implies #[trigger] spec_anc(
                        nodes1,
                        k,
                        j,
                    ) by {
                        assert(spec_anc(b.doc.nodes, k, j));
                    }
                }
                assert forall|j: int, k: int|
                    0 <= j < nodes1.len() && #[trigger] spec_open(bf, j) && j < k
                        < nodes1.len() implies #[trigger] spec_anc(nodes1, k, j) by {
                    assert(spec_anc(b.doc.nodes, k, j));
                }
            } else {
                lemma_inv_transfer(b, bf);
            }
        } else {
            assert(b.doc.nodes.len() < usize::MAX);
            lemma_append_inv_settled(b, NodeKindV::Text(content));
            match spec_append_node(b, NodeKindV::Text(content)) {
                Ok(p) => {
                    let bx = BuilderV { awaiting: seq![p.1], ..p.0 };
                    assert(bf.awaiting =~= bx.awaiting);
                    lemma_inv_transfer(bx, bf);
                },
                Err(_) => {},
            }
        }
    } else {
        lemma_inv_transfer(b, bf);
    }
}

/// An element-end event preserves the structural invariant.
#[verifier::rlimit(100)]
#[verifier::spinoff_prover]
proof fn lemma_element_end_inv(b: BuilderV, t: Event, end: ElementEnd, pos: usize)
    requires
        spec_builder_inv(b),
        b.doc.namespaces.tree_order.len() <= usize::MAX,
        t == (Event::ElementEnd { end, pos }),
        spec_token_step(b, t) is Ok,
        spec_token_step(b, t)->Ok_0.doc.namespaces.tree_order.len() <= usize::MAX,
        spec_token_step(b, t)->Ok_0.doc.nodes.len() <= usize::MAX,
        spec_builder_bounds(spec_token_step(b, t)->Ok_0),
    ensures
        spec_builder_inv(spec_token_step(b, t)->Ok_0),
{
    let bf = spec_token_step(b, t)->Ok_0;
    let br = spec_resolve_namespaces(b);
    let b1a = br.0;
    let namespaces = br.1;
    if 0 <= b.parent < b.doc.nodes.len() {
        match b.doc.nodes[b.parent as int].kind {
            NodeKindV::Element { namespaces: pns, .. } => {
                if b.ns_start != b.doc.namespaces.tree_order.len() {
                    lemma_copy_ns_frame(
                        b.doc.namespaces,
                        b.ns_start as int,
                        pns.start as int,
                        pns.end as int,
                    );
                }
            },
            _ => {},
        }
    }
    let b1 = BuilderV { ns_start: b1a.doc.namespaces.tree_order.len() as usize, ..b1a };
    match spec_resolve_attributes(b1, namespaces) {
        Err(_) => {},
        Ok(pr) => {
            let b2 = pr.0;
            let attributes = pr.1;
            if b1.cur_attrs.len() != 0 {
                lemma_attr_fold_frame(
                    BuilderV { cur_attrs: Seq::empty(), ..b1 },
                    namespaces,
                    b1.cur_attrs,
                    b1.doc.attributes.len() as int,
                );
            }
            assert(b2.doc.namespaces == b1a.doc.namespaces);
            assert(b1a.doc.namespaces.tree_order.len() <= usize::MAX);
            assert(spec_builder_bounds(b1));
            assert(namespaces.start <= namespaces.end <= b1.doc.namespaces.tree_order.len());
            assert(spec_builder_bounds(b2));
            lemma_inv_transfer(b, b2);
            match end {
                ElementEnd::Empty => {
                    match spec_get_ns_idx(b2, namespaces, b.tag.prefix, b.tag.prefix_pos) {
                        Err(_) => {},
                        Ok(tag_ns_idx) => {
                            let kind = NodeKindV::Element {
                                tag_name: ExpandedNameV {
                                    namespace_idx: tag_ns_idx,
                                    local_name: b.tag.name,
                                },
                                attributes,
                                namespaces,
                            };
                            match spec_append_node(b2, kind) {
                                Err(_) => {},
                                Ok(ap) => {
                                    assert(b2.doc.nodes.len() < usize::MAX);
                                    lemma_append_inv_settled(b2, kind);
                                    let bx = BuilderV { awaiting: seq![ap.1], ..ap.0 };
                                    assert(bf.awaiting =~= bx.awaiting);
                                    lemma_inv_transfer(bx, bf);
                                },
                            }
                        },
                    }
                },
                ElementEnd::Close(_, _) => {
                    let p = b2.parent as int;
                    match b2.doc.nodes[p].parent {
                        None => {},
                        Some(gp) => {
                            lemma_close_inv(b2, gp);
                            let bx = BuilderV {
                                awaiting: b2.awaiting.push(b2.parent),
                                parent: gp,
                                prefixes: b2.prefixes.drop_last(),
                                ..b2
                            };
                            lemma_inv_transfer(bx, bf);
                        },
                    }
                },
                ElementEnd::Open => {
                    match spec_get_ns_idx(b2, namespaces, b.tag.prefix, b.tag.prefix_pos) {
                        Err(_) => {},
                        Ok(tag_ns_idx) => {
                            let kind = NodeKindV::Element {
                                tag_name: ExpandedNameV {
                                    namespace_idx: tag_ns_idx,
                                    local_name: b.tag.name,
                                },
                                attributes,
                                namespaces,
                            };
                            match spec_append_node(b2, kind) {
                                Err(_) => {},
                                Ok(ap) => {
                                    assert(b2.doc.nodes.len() < usize::MAX);
                                    lemma_append_inv_open(b2, kind, b.tag.prefix);
                                    let bx = BuilderV {
                                        parent: ap.1,
                                        prefixes: b2.prefixes.push(b.tag.prefix),
                                        ..ap.0
                                    };
                                    lemma_inv_transfer(bx, bf);
                                },
                            }
                        },
                    }
                },
            }
        },
    }
}

/// The initial builder state satisfies the structural invariant.
proof fn lemma_init_inv(text: Seq<char>, options: ParsingOptions)
    ensures
        spec_builder_inv(spec_builder_init(text, options)),
{
    let b = spec_builder_init(text, options);
    assert(spec_depth(b.doc.nodes, 0) == 0);
}

/// When the open-element stack is down to the root, the arena is a
/// well-formed document tree.
pub proof fn lemma_finish_wf(b: BuilderV)
    requires
        spec_builder_inv(b),
        b.prefixes.len() == 1,
        b.doc.nodes.len() <= usize::MAX,
    ensures
        crate::tree::spec_wf_doc(b.doc),
{
    let nodes = b.doc.nodes;
    assert(b.parent as int == 0) by {
        if b.parent as int > 0 {
            lemma_depth_nonneg(nodes, nodes[b.parent as int].parent->0 as int);
        }
    }
    assert forall|j: int| 0 <= j < nodes.len() implies {
        &&& j < #[trigger] spec_end(nodes, j) <= nodes.len()
        &&& (nodes[j].next_subtree is Some ==> spec_end(nodes, j) < nodes.len())
        &&& (forall|k: int| j < k < spec_end(nodes, j) ==> #[trigger] spec_anc(nodes, k, j))
        &&& (forall|k: int|
            spec_end(nodes, j) <= k < nodes.len() ==> !#[trigger] spec_anc(nodes, k, j))
    } by {
        if spec_open(b, j) {
            assert(j == 0);
            assert(nodes[j].next_subtree is None);
            assert(forall|k: int| 0 < k < nodes.len() ==> #[trigger] spec_anc(nodes, k, 0));
            assert forall|k: int|
                spec_end(nodes, 0) <= k < nodes.len() implies !#[trigger] spec_anc(
                nodes,
                k,
                0,
            ) by {}
        } else {
            assert(spec_settled(b, j));
        }
    }
}

/// Every successful step preserves the builder bounds.
pub proof fn lemma_step_bounds(b: BuilderV, t: Event)
    requires
        spec_builder_bounds(b),
        b.doc.namespaces.tree_order.len() <= usize::MAX,
        (spec_token_step(b, t) matches Ok(b2) ==> b2.doc.namespaces.tree_order.len()
            <= usize::MAX && b2.doc.nodes.len() <= usize::MAX),
    ensures
        (spec_token_step(b, t) matches Ok(b2) ==> spec_builder_bounds(b2)),
{
    match t {
        Event::ElementStart { .. } => {},
        Event::Attribute { .. } => {},
        Event::ElementEnd { end, pos } => {
            lemma_element_end_bounds(b, t, end, pos);
        },
        Event::Text { text, pos } => {
            lemma_append_text_bounds(b, t);
        },
        Event::Cdata { text, pos } => {
            lemma_append_text_bounds(b, t);
        },
        Event::EntityDefinition { .. } => {},
        Event::DtdStart => {},
    }
}

/// Committing or merging text preserves the builder bounds.
proof fn lemma_append_text_bounds(b: BuilderV, t: Event)
    requires
        spec_builder_bounds(b),
        (t is Text || t is Cdata),
        (spec_token_step(b, t) matches Ok(b2) ==> b2.doc.nodes.len() <= usize::MAX),
    ensures
        (spec_token_step(b, t) matches Ok(b2) ==> spec_builder_bounds(b2)),
{
    if spec_token_step(b, t) is Ok {
        let content: Seq<char> = match t {
            Event::Text { text, pos } => match spec_text_content(
                text@,
                b.entities,
                b.has_subset,
                pos as int,
            ) {
                Ok(c) => c,
                Err(_) => Seq::empty(),
            },
            Event::Cdata { text, .. } => text@,
            _ => Seq::empty(),
        };
        let commits: bool = match t {
            Event::Text { text, pos } => !spec_text_special(text@) || content.len() > 0,
            _ => true,
        };
        if commits {
            if b.after_text {
                let last = b.doc.nodes.len() - 1;
                if b.doc.nodes.len() > 0 && b.doc.nodes[last].kind is Text {
                    let prev = b.doc.nodes[last].kind->Text_0;
                    let nodes1 = b.doc.nodes.update(
                        last,
                        NodeV { kind: NodeKindV::Text(prev + content), ..b.doc.nodes[last] },
                    );
                    lemma_depth_same(b.doc.nodes, nodes1, b.parent as int);
                }
            } else {
                let new_id = b.doc.nodes.len() as usize;
                let p = b.parent as int;
                let node = NodeV {
                    parent: Some(b.parent),
                    prev_sibling: b.doc.nodes[p].last_child,
                    next_subtree: None,
                    last_child: None,
                    kind: NodeKindV::Text(content),
                };
                let nodes1 = b.doc.nodes.push(node);
                let nodes2 = nodes1.update(p, NodeV { last_child: Some(new_id), ..nodes1[p] });
                lemma_patch_frame(nodes2, b.awaiting, new_id);
                assert(b.doc.nodes.len() < usize::MAX);
                lemma_append_bounds(b, NodeKindV::Text(content));
            }
        }
    }
}

impl Context {
    /// Accepts the next event of the stream.
    pub fn token(&mut self, token: Event) -> (r: Result<(), Error>)
        requires
            spec_builder_bounds(old(self)@),
        ensures
            match r {
                Ok(_) => spec_token_step(old(self)@, token) == Ok::<BuilderV, ErrorV>(
                    final(self)@,
                ),
                Err(e) => spec_token_step(old(self)@, token) == Err::<BuilderV, ErrorV>(e@),
            },
    {
        match token {
            Event::ElementStart { prefix, local, start } => {
                if str_eq(prefix.as_str(), XMLNS) {
                    let p = self.err_pos_at(sat_add(start, 1));
                    return Err(Error::InvalidElementNamePrefix(p));
                }
                let pp = sat_add(start, 1);
                self.tag_name = TagNameSpan { prefix, name: local, prefix_pos: pp };
                self.after_text = false;
                Ok(())
            },
            Event::Attribute { prefix, local, value, pos, value_pos } => process_attribute(
                prefix,
                local,
                value,
                pos,
                value_pos,
                self,
            ),
            Event::ElementEnd { end, pos } => {
                match process_element(end, pos, self) {
                    Ok(_) => {
                        self.after_text = false;
                        Ok(())
                    },
                    Err(e) => Err(e),
                }
            },
            Event::Text { text, pos } => process_text(text, pos, self),
            Event::Cdata { text, pos } => {
                match append_text(text, self) {
                    Ok(_) => {
                        self.after_text = true;
                        Ok(())
                    },
                    Err(e) => Err(e),
                }
            },
            Event::EntityDefinition { name, value } => {
                if self.options.allow_dtd {
                    let ghost before = self@;
                    self.entities.push(Entity { name, value });
                    proof {
                        assert(final(self)@.entities =~= before.entities.push(
                            EntityV { name: name@, value: value@ },
                        ));
                    }
                }
                Ok(())
            },
            Event::DtdStart => {
                if self.options.allow_dtd {
                    self.has_subset = true;
                }
                Ok(())
            },
        }
    }
}

/// How many element children of the root stand in the arena.
fn count_root_elements(nodes: &Vec<NodeData>) -> (r: usize)
    ensures
        r as int == spec_root_elem_count(nv(nodes@), nodes@.len() as int),
{
    let mut count: usize = 0;
    let mut j: usize = 0;
    while j < nodes.len()
        invariant
            0 <= j <= nodes@.len(),
            count <= j,
            count as int == spec_root_elem_count(nv(nodes@), j as int),
        decreases nodes@.len() - j,
    {
        let is_root_child = match nodes[j].parent {
            Some(p) => p == 0,
            None => false,
        };
        if is_root_child && matches!(nodes[j].kind, NodeKind::Element { .. }) {
            count = count + 1;
        }
        j = j + 1;
    }
    count
}

impl Document {
    /// Builds a document out of an ordered event stream over the given
    /// source text, in one forward pass and without looking ahead.
    pub fn build(text: &str, tokens: Vec<Event>, options: ParsingOptions) -> (r: Result<
        Document,
        Error,
    >)
        ensures
            match r {
                Ok(d) => spec_parse_tokens(text@, tokens@, options) == Ok::<DocumentV, ErrorV>(
                    d@,
                ) && d.wf(),
                Err(e) => spec_parse_tokens(text@, tokens@, options) == Err::<DocumentV, ErrorV>(
                    e@,
                ),
            },
    {
        let ghost init = spec_builder_init(text@, options);
        let ghost goal = spec_fold(init, tokens@);
        let mut ctx = Context {
            namespace_start_idx: 1,
            current_attributes: Vec::new(),
            awaiting_subtree: Vec::new(),
            parent_prefixes: Vec::new(),
            after_text: false,
            parent_id: 0,
            tag_name: TagNameSpan::new_null(),
            doc: Document {
                text: String::from_str(text),
                nodes: Vec::new(),
                attributes: Vec::new(),
                namespaces: Namespaces { values: Vec::new(), tree_order: Vec::new() },
            },
            entities: Vec::new(),
            has_subset: false,
            options,
        };
        ctx.doc.nodes.push(
            NodeData {
                parent: None,
                prev_sibling: None,
                next_subtree: None,
                last_child: None,
                kind: NodeKind::Root,
            },
        );
        ctx.doc.namespaces.push_ns(
            Some(String::from_str(NS_XML_PREFIX)),
            String::from_str(NS_XML_URI),
        );
        ctx.parent_prefixes.push(String::new());
        proof {
            assert(ctx@.doc.nodes =~= init.doc.nodes);
            assert(ctx@.doc.namespaces.values =~= init.doc.namespaces.values);
            assert(ctx@.doc.namespaces.tree_order =~= init.doc.namespaces.tree_order);
            assert(ctx@.prefixes =~= init.prefixes);
            assert(ctx@ =~= init);
            lemma_init_inv(text@, options);
        }
        let mut toks = tokens;
        while toks.len() > 0
            invariant
                init == spec_builder_init(text@, options),
                goal == spec_fold(init, tokens@),
                spec_builder_inv(ctx@),
                goal == spec_fold(ctx@, toks@),
            decreases toks@.len(),
        {
            let ghost pre = ctx@;
            let ghost toks0 = toks@;
            proof {
                assert(ctx.doc.namespaces.tree_order@.len()
                    == ctx.doc.namespaces.tree_order.len());
            }
            let t = toks.remove(0);
            proof {
                assert(toks0.remove(0) =~= toks0.drop_first());
            }
            match ctx.token(t) {
                Ok(_) => {
                    proof {
                        assert(ctx.doc.namespaces.tree_order@.len()
                            == ctx.doc.namespaces.tree_order.len());
                        assert(ctx.doc.nodes@.len() == ctx.doc.nodes.len());
                        lemma_step_inv(pre, t);
                    }
                },
                Err(e) => {
                    proof {
                        assert(spec_fold(pre, toks0) == Err::<BuilderV, ErrorV>(e@));
                    }
                    return Err(e);
                },
            }
        }
        proof {
            assert(toks@ =~= Seq::<Event>::empty());
            assert(goal == Ok::<BuilderV, ErrorV>(ctx@));
        }
        let count = count_root_elements(&ctx.doc.nodes);
        if count != 1 {
            return Err(Error::NoRootNode);
        }
        if ctx.parent_prefixes.len() > 1 {
            return Err(Error::UnclosedRootNode);
        }
        proof {
            assert(ctx.doc.nodes@.len() == ctx.doc.nodes.len());
            lemma_finish_wf(ctx@);
        }
        Ok(ctx.doc)
    }
}

/// The document the whole parse yields for this text and configuration, or
/// the first error: the scanner's event stream fed to the builder.
pub open spec fn spec_parse(text: Seq<char>, options: ParsingOptions) -> Result<
    DocumentV,
    ErrorV,
> {
    match crate::scan::scan_of(text) {
        Err(e) => Err(e@),
        Ok(ts) => spec_parse_tokens(text, ts, options),
    }
}

impl Document {
    /// Parses the input XML string with the given configuration.
    pub fn parse_with_options(text: &str, options: ParsingOptions) -> (r: Result<
        Document,
        Error,
    >)
        ensures
            (match r {
                Ok(d) => spec_parse(text@, options) == Ok::<DocumentV, ErrorV>(d@) && d.wf(),
                Err(e) => spec_parse(text@, options) == Err::<DocumentV, ErrorV>(e@),
            }),
    {
        match crate::scan::scan_text(text) {
            Ok(tokens) => Document::build(text, tokens, options),
            Err(e) => Err(e),
        }
    }

    /// Parses the input XML string.
    ///
    /// The input must be one complete, already-decoded document; the
    /// internal subset is honored and the node ceiling is the default one.
    pub fn parse(text: &str) -> (r: Result<Document, Error>)
        ensures
            (match r {
                Ok(d) => spec_parse(text@, ParsingOptions { allow_dtd: true, nodes_limit: u32::MAX })
                    == Ok::<DocumentV, ErrorV>(d@) && d.wf(),
                Err(e) => spec_parse(
                    text@,
                    ParsingOptions { allow_dtd: true, nodes_limit: u32::MAX },
                ) == Err::<DocumentV, ErrorV>(e@),
            }),
    {
        Document::parse_with_options(text, ParsingOptions::default_options())
    }
}

} // verus!
