//! The document tree: an append-only arena of nodes addressed by integer
//! ids in document order, plus the namespace and attribute tables.

use vstd::prelude::*;

verus! {

/// The fixed prefix of the predefined XML namespace.
pub const NS_XML_PREFIX: &'static str = "xml";

/// The URI the `xml` prefix is bound to, and nothing else may be.
pub const NS_XML_URI: &'static str = "http://www.w3.org/XML/1998/namespace";

/// The URI reserved for namespace declarations; it must never be declared.
pub const NS_XMLNS_URI: &'static str = "http://www.w3.org/2000/xmlns/";

/// The reserved namespace-declaration token.
pub const XMLNS: &'static str = "xmlns";

/// A contiguous range of indices into one of the append-only tables.
#[derive(Clone, Copy, Debug, PartialEq, Eq, Structural)]
pub struct ShortRange {
    pub start: usize,
    pub end: usize,
}

impl ShortRange {
    /// Builds the range `start..end`.
    pub fn new(start: usize, end: usize) -> (r: ShortRange)
        ensures
            r == (ShortRange { start, end }),
    {
        ShortRange { start, end }
    }
}

// ---------------------------------------------------------------------------
// Namespaces
// ---------------------------------------------------------------------------

/// One prefix binding: an optional prefix and the URI it is bound to.
#[derive(Debug, Clone)]
pub struct NamespaceEntry {
    pub name: Option<String>,
    pub uri: String,
}

/// The mathematical shape of a [`NamespaceEntry`].
#[verifier::ext_equal]
pub struct NsV {
    pub name: Option<Seq<char>>,
    pub uri: Seq<char>,
}

impl View for NamespaceEntry {
    type V = NsV;

    open spec fn view(&self) -> NsV {
        NsV {
            name: match self.name {
                Some(ref s) => Some(s@),
                None => None,
            },
            uri: self.uri@,
        }
    }
}

/// The append-only namespace log. `values` holds each distinct declaration
/// once; `tree_order` holds, per tree position, indices into `values`, so a
/// visible-scope range is a contiguous span over `tree_order` and a branch
/// that declares nothing reuses its parent's entries by reference.
#[derive(Debug, Clone)]
pub struct Namespaces {
    pub values: Vec<NamespaceEntry>,
    pub tree_order: Vec<usize>,
}

/// The mathematical shape of the namespace log.
#[verifier::ext_equal]
pub struct NamespacesV {
    pub values: Seq<NsV>,
    pub tree_order: Seq<usize>,
}

impl View for Namespaces {
    type V = NamespacesV;

    open spec fn view(&self) -> NamespacesV {
        NamespacesV {
            values: self.values@.map_values(|e: NamespaceEntry| e@),
            tree_order: self.tree_order@,
        }
    }
}

/// Appending a declaration: the value is stored once and its index enters
/// the tree order.
pub open spec fn spec_ns_push(ns: NamespacesV, name: Option<Seq<char>>, uri: Seq<char>) -> NamespacesV {
    NamespacesV {
        values: ns.values.push(NsV { name, uri }),
        tree_order: ns.tree_order.push(ns.values.len() as usize),
    }
}

/// Re-appending an already-stored declaration by tree-order position.
pub open spec fn spec_ns_push_ref(ns: NamespacesV, tree_order_idx: int) -> NamespacesV {
    NamespacesV { values: ns.values, tree_order: ns.tree_order.push(ns.tree_order[tree_order_idx]) }
}

/// Whether a declaration for `name` stands in `tree_order[start..]`: the
/// duplicate check scoped to the element currently being opened.
pub open spec fn spec_ns_exists(ns: NamespacesV, start: int, name: Option<Seq<char>>) -> bool {
    exists|k: int|
        start <= k < ns.tree_order.len() && ns.tree_order[k] < ns.values.len() && ns.values[
            ns.tree_order[k] as int
        ].name == name
}

impl Namespaces {
    /// Appends a declaration to the log.
    pub fn push_ns(&mut self, name: Option<String>, uri: String)
        ensures
            final(self)@ == spec_ns_push(old(self)@, match name {
                Some(ref s) => Some(s@),
                None => None::<Seq<char>>,
            }, uri@),
    {
        let idx = self.values.len();
        self.values.push(NamespaceEntry { name, uri });
        self.tree_order.push(idx);
        proof {
            assert(final(self)@.values =~= spec_ns_push(old(self)@, match name {
                Some(ref s) => Some(s@),
                None => None::<Seq<char>>,
            }, uri@).values);
        }
    }

    /// Re-appends the declaration standing at `tree_order[i]`.
    pub fn push_ref(&mut self, i: usize)
        requires
            i < old(self)@.tree_order.len(),
        ensures
            final(self)@ == spec_ns_push_ref(old(self)@, i as int),
    {
        let idx = self.tree_order[i];
        self.tree_order.push(idx);
    }

    /// Whether a declaration for `name` was added at or after `start`.
    pub fn exists_from(&self, start: usize, name: Option<&str>) -> (r: bool)
        ensures
            r == spec_ns_exists(self@, start as int, match name {
                Some(s) => Some(s@),
                None => None::<Seq<char>>,
            }),
    {
        let ghost gname: Option<Seq<char>> = match name {
            Some(s) => Some(s@),
            None => None,
        };
        let mut k: usize = start;
        if k > self.tree_order.len() {
            return false;
        }
        while k < self.tree_order.len()
            invariant
                start <= k <= self@.tree_order.len(),
            gname == match name {
                Some(s) => Some(s@),
                None => None::<Seq<char>>,
            },
                forall|m: int|
                    start <= m < k ==> !(self@.tree_order[m] < self@.values.len() && self@.values[
                        self@.tree_order[m] as int
                    ].name == gname),
            decreases self@.tree_order.len() - k,
        {
            let idx = self.tree_order[k];
            if idx < self.values.len() {
                let entry_matches = match (&self.values[idx].name, name) {
                    (Some(en), Some(qn)) => crate::chars::str_eq(en.as_str(), qn),
                    (None, None) => true,
                    _ => false,
                };
                if entry_matches {
                    assert(self@.tree_order[k as int] < self@.values.len() && self@.values[
                        self@.tree_order[k as int] as int
                    ].name == gname);
                    return true;
                }
            }
            k = k + 1;
        }
        false
    }
}

// ---------------------------------------------------------------------------
// Attributes
// ---------------------------------------------------------------------------

/// A resolved qualified name: an optional index into the namespace values
/// and a local name.
#[derive(Debug, Clone)]
pub struct ExpandedNameIndexed {
    pub namespace_idx: Option<usize>,
    pub local_name: String,
}

/// The mathematical shape of an [`ExpandedNameIndexed`].
#[verifier::ext_equal]
pub struct ExpandedNameV {
    pub namespace_idx: Option<usize>,
    pub local_name: Seq<char>,
}

impl View for ExpandedNameIndexed {
    type V = ExpandedNameV;

    open spec fn view(&self) -> ExpandedNameV {
        ExpandedNameV { namespace_idx: self.namespace_idx, local_name: self.local_name@ }
    }
}

/// The namespace URI an expanded name resolves to, if any.
pub open spec fn spec_expanded_uri(name: ExpandedNameV, values: Seq<NsV>) -> Option<Seq<char>> {
    match name.namespace_idx {
        Some(k) => if k < values.len() {
            Some(values[k as int].uri)
        } else {
            None
        },
        None => None,
    }
}

/// Whether two expanded names collide: same resolved namespace URI and same
/// local name, whatever the source prefixes were.
pub open spec fn spec_expanded_eq(a: ExpandedNameV, b: ExpandedNameV, values: Seq<NsV>) -> bool {
    spec_expanded_uri(a, values) == spec_expanded_uri(b, values) && a.local_name == b.local_name
}

/// One resolved attribute: its expanded name and its normalized value.
#[derive(Debug, Clone)]
pub struct AttributeData {
    pub name: ExpandedNameIndexed,
    pub value: String,
}

/// The mathematical shape of an [`AttributeData`].
#[verifier::ext_equal]
pub struct AttrV {
    pub name: ExpandedNameV,
    pub value: Seq<char>,
}

impl View for AttributeData {
    type V = AttrV;

    open spec fn view(&self) -> AttrV {
        AttrV { name: self.name@, value: self.value@ }
    }
}

// ---------------------------------------------------------------------------
// Nodes
// ---------------------------------------------------------------------------

/// What a node is: the synthetic root, an element, or a text run.
#[derive(Debug, Clone)]
pub enum NodeKind {
    Root,
    Element { tag_name: ExpandedNameIndexed, attributes: ShortRange, namespaces: ShortRange },
    Text(String),
}

/// The mathematical shape of a [`NodeKind`].
#[verifier::ext_equal]
pub enum NodeKindV {
    Root,
    Element { tag_name: ExpandedNameV, attributes: ShortRange, namespaces: ShortRange },
    Text(Seq<char>),
}

impl View for NodeKind {
    type V = NodeKindV;

    open spec fn view(&self) -> NodeKindV {
        match self {
            NodeKind::Root => NodeKindV::Root,
            NodeKind::Element { tag_name, attributes, namespaces } => NodeKindV::Element {
                tag_name: tag_name@,
                attributes: *attributes,
                namespaces: *namespaces,
            },
            NodeKind::Text(s) => NodeKindV::Text(s@),
        }
    }
}

/// One node of the arena, linked by parent, previous sibling, last child
/// and the subtree-skip pointer.
#[derive(Debug, Clone)]
pub struct NodeData {
    pub parent: Option<usize>,
    pub prev_sibling: Option<usize>,
    pub next_subtree: Option<usize>,
    pub last_child: Option<usize>,
    pub kind: NodeKind,
}

/// The mathematical shape of a [`NodeData`].
#[verifier::ext_equal]
pub struct NodeV {
    pub parent: Option<usize>,
    pub prev_sibling: Option<usize>,
    pub next_subtree: Option<usize>,
    pub last_child: Option<usize>,
    pub kind: NodeKindV,
}

impl View for NodeData {
    type V = NodeV;

    open spec fn view(&self) -> NodeV {
        NodeV {
            parent: self.parent,
            prev_sibling: self.prev_sibling,
            next_subtree: self.next_subtree,
            last_child: self.last_child,
            kind: self.kind@,
        }
    }
}

// ---------------------------------------------------------------------------
// The document
// ---------------------------------------------------------------------------

/// An immutable XML document: the source text and the three append-only
/// tables built in one forward pass.
#[derive(Debug, Clone)]
pub struct Document {
    pub text: String,
    pub nodes: Vec<NodeData>,
    pub attributes: Vec<AttributeData>,
    pub namespaces: Namespaces,
}

/// The mathematical shape of a [`Document`].
#[verifier::ext_equal]
pub struct DocumentV {
    pub text: Seq<char>,
    pub nodes: Seq<NodeV>,
    pub attributes: Seq<AttrV>,
    pub namespaces: NamespacesV,
}

impl View for Document {
    type V = DocumentV;

    open spec fn view(&self) -> DocumentV {
        DocumentV {
            text: self.text@,
            nodes: self.nodes@.map_values(|n: NodeData| n@),
            attributes: self.attributes@.map_values(|a: AttributeData| a@),
            namespaces: self.namespaces@,
        }
    }
}

// ---------------------------------------------------------------------------
// Well-formedness
// ---------------------------------------------------------------------------

/// Whether node `i` is a strict ancestor of node `j`, following parent
/// links. Ids on a parent chain strictly decrease, so the recursion is on
/// `j` itself.
pub open spec fn spec_anc(nodes: Seq<NodeV>, j: int, i: int) -> bool
    decreases j,
{
    if 0 < j < nodes.len() {
        match nodes[j].parent {
            Some(p) => if p as int >= j {
                false
            } else if p as int == i {
                true
            } else {
                spec_anc(nodes, p as int, i)
            },
            None => false,
        }
    } else {
        false
    }
}

/// Whether node `k` lies in the subtree rooted at `j`.
pub open spec fn spec_in_subtree(nodes: Seq<NodeV>, k: int, j: int) -> bool {
    k == j || spec_anc(nodes, k, j)
}

/// The id just past node `j`'s subtree: its skip pointer, or the end of the
/// arena when the subtree reaches it.
pub open spec fn spec_end(nodes: Seq<NodeV>, j: int) -> int {
    match nodes[j].next_subtree {
        Some(e) => e as int,
        None => nodes.len() as int,
    }
}

/// The parent links are sane: one root at id 0, every other node has a
/// parent with a smaller id, and text nodes have no children.
pub open spec fn spec_wf_parents(nodes: Seq<NodeV>) -> bool {
    &&& nodes.len() >= 1
    &&& nodes[0].kind is Root
    &&& nodes[0].parent is None
    &&& nodes[0].prev_sibling is None
    &&& forall|j: int|
        1 <= j < nodes.len() ==> {
            &&& #[trigger] nodes[j].parent is Some
            &&& 0 <= nodes[j].parent->0 < j
            &&& !(nodes[nodes[j].parent->0 as int].kind is Text)
            &&& !(nodes[j].kind is Root)
        }
}

/// Every subtree is one contiguous id interval `[j, end)`, and the skip
/// pointer is exactly its end where one more node follows.
pub open spec fn spec_wf_subtrees(nodes: Seq<NodeV>) -> bool {
    forall|j: int|
        0 <= j < nodes.len() ==> {
            &&& j < #[trigger] spec_end(nodes, j) <= nodes.len()
            &&& (nodes[j].next_subtree is Some ==> spec_end(nodes, j) < nodes.len())
            &&& forall|k: int| j < k < spec_end(nodes, j) ==> #[trigger] spec_anc(nodes, k, j)
            &&& forall|k: int|
                spec_end(nodes, j) <= k < nodes.len() ==> !#[trigger] spec_anc(nodes, k, j)
        }
}

/// The last-child links are sane: they point at the greatest child, and are
/// absent exactly on childless nodes.
pub open spec fn spec_wf_children(nodes: Seq<NodeV>) -> bool {
    forall|j: int|
        0 <= j < nodes.len() ==> match #[trigger] nodes[j].last_child {
            Some(c) => j < c < nodes.len() && nodes[c as int].parent == Some(j as usize) && (forall|
                k: int,
            | c < k < nodes.len() ==> #[trigger] nodes[k].parent != Some(j as usize)),
            None => forall|k: int|
                0 <= k < nodes.len() ==> #[trigger] nodes[k].parent != Some(j as usize),
        }
}

/// The namespace table indices stored in the tree order and in the
/// elements' scope ranges are in bounds.
pub open spec fn spec_wf_ranges(d: DocumentV) -> bool {
    &&& forall|k: int|
        0 <= k < d.namespaces.tree_order.len() ==> #[trigger] d.namespaces.tree_order[k]
            < d.namespaces.values.len()
    &&& forall|j: int|
        0 <= j < d.nodes.len() ==> match #[trigger] d.nodes[j].kind {
            NodeKindV::Element { namespaces, .. } => namespaces.start <= namespaces.end
                <= d.namespaces.tree_order.len(),
            _ => true,
        }
}

/// Well-formedness of a finished document.
pub open spec fn spec_wf_doc(d: DocumentV) -> bool {
    &&& spec_wf_parents(d.nodes)
    &&& spec_wf_subtrees(d.nodes)
    &&& spec_wf_children(d.nodes)
    &&& spec_wf_ranges(d)
    &&& d.nodes.len() <= usize::MAX
}

/// The first child of a node: under pre-order ids it is the next id, and it
/// exists exactly when the node has a last child.
pub open spec fn spec_first_child(d: DocumentV, id: int) -> Option<usize> {
    if d.nodes[id].last_child is Some {
        Some((id + 1) as usize)
    } else {
        None
    }
}

/// The next sibling of a node: its subtree-skip target, if that target has
/// the same parent.
pub open spec fn spec_next_sibling(d: DocumentV, id: int) -> Option<usize> {
    match d.nodes[id].next_subtree {
        Some(e) => if e < d.nodes.len() && d.nodes[e as int].parent == d.nodes[id].parent {
            Some(e)
        } else {
            None
        },
        None => None,
    }
}

/// The ids of a node's children, in document order, walked by first-child
/// and next-sibling links.
pub open spec fn spec_sibling_chain(d: DocumentV, cur: Option<usize>) -> Seq<usize>
    decreases (match cur {
        Some(c) => d.nodes.len() - c,
        None => 0,
    }),
{
    match cur {
        Some(c) => if c < d.nodes.len() {
            match spec_next_sibling(d, c as int) {
                Some(e) => if c < e {
                    seq![c] + spec_sibling_chain(d, Some(e))
                } else {
                    seq![c]
                },
                None => seq![c],
            }
        } else {
            Seq::empty()
        },
        None => Seq::empty(),
    }
}

/// The ids of a node's children in document order.
pub open spec fn spec_children(d: DocumentV, id: int) -> Seq<usize> {
    spec_sibling_chain(d, spec_first_child(d, id))
}

/// Where a node's subtree ends: its skip pointer, or the end of the arena.
pub open spec fn spec_subtree_end(d: DocumentV, id: int) -> int {
    spec_end(d.nodes, id)
}

/// The local name of an element's tag, empty for other nodes.
pub open spec fn spec_tag_name(d: DocumentV, id: int) -> Seq<char> {
    match d.nodes[id].kind {
        NodeKindV::Element { tag_name, .. } => tag_name.local_name,
        _ => Seq::empty(),
    }
}

/// The first attribute in the element's range with no namespace and this
/// local name.
pub open spec fn spec_attr_lookup(d: DocumentV, lo: int, hi: int, name: Seq<char>) -> Option<
    Seq<char>,
>
    decreases hi - lo,
{
    if lo < 0 || lo >= hi || lo >= d.attributes.len() {
        None
    } else if d.attributes[lo].name.namespace_idx is None && d.attributes[lo].name.local_name
        == name {
        Some(d.attributes[lo].value)
    } else {
        spec_attr_lookup(d, lo + 1, hi, name)
    }
}

/// The value of the named, namespace-less attribute of a node, if any.
pub open spec fn spec_attribute(d: DocumentV, id: int, name: Seq<char>) -> Option<Seq<char>> {
    match d.nodes[id].kind {
        NodeKindV::Element { attributes, .. } => spec_attr_lookup(
            d,
            attributes.start as int,
            attributes.end as int,
            name,
        ),
        _ => None,
    }
}

/// The text directly held by a node: a text node's own content, or an
/// element's leading text child.
pub open spec fn spec_node_text(d: DocumentV, id: int) -> Option<Seq<char>> {
    match d.nodes[id].kind {
        NodeKindV::Text(s) => Some(s),
        NodeKindV::Element { .. } => {
            match spec_first_child(d, id) {
                Some(c) => match d.nodes[c as int].kind {
                    NodeKindV::Text(s) => Some(s),
                    _ => None,
                },
                None => None,
            }
        },
        _ => None,
    }
}

impl Document {
    /// Well-formedness of a finished document; parsing only ever returns
    /// well-formed documents.
    pub open spec fn wf(&self) -> bool {
        spec_wf_doc(self@)
    }

    /// The id of the synthetic root node.
    pub fn root(&self) -> (r: usize)
        ensures
            r == 0,
    {
        0
    }

    /// How many nodes the document holds.
    pub fn node_count(&self) -> (r: usize)
        ensures
            r == self@.nodes.len(),
    {
        self.nodes.len()
    }

    /// Whether the node is an element.
    pub fn is_element(&self, id: usize) -> (r: bool)
        requires
            id < self@.nodes.len(),
        ensures
            r == (self@.nodes[id as int].kind is Element),
    {
        matches!(self.nodes[id].kind, NodeKind::Element { .. })
    }

    /// Whether the node is a text run.
    pub fn is_text(&self, id: usize) -> (r: bool)
        requires
            id < self@.nodes.len(),
        ensures
            r == (self@.nodes[id as int].kind is Text),
    {
        matches!(self.nodes[id].kind, NodeKind::Text(_))
    }

    /// The local name of an element's tag, empty for other nodes.
    pub fn tag_name<'a>(&'a self, id: usize) -> (r: &'a str)
        requires
            id < self@.nodes.len(),
        ensures
            r@ == spec_tag_name(self@, id as int),
    {
        proof {
            reveal_strlit("");
        }
        match &self.nodes[id].kind {
            NodeKind::Element { tag_name, .. } => tag_name.local_name.as_str(),
            _ => "",
        }
    }

    /// Whether the node is an element with this local tag name.
    pub fn has_tag_name(&self, id: usize, name: &str) -> (r: bool)
        requires
            id < self@.nodes.len(),
        ensures
            r == (self@.nodes[id as int].kind is Element && spec_tag_name(self@, id as int)
                == name@),
    {
        self.is_element(id) && crate::chars::str_eq(self.tag_name(id), name)
    }

    /// The first child of a node, if any.
    pub fn first_child(&self, id: usize) -> (r: Option<usize>)
        requires
            self.wf(),
            id < self@.nodes.len(),
        ensures
            r == spec_first_child(self@, id as int),
            (r matches Some(c) ==> id < c < self@.nodes.len()),
    {
        if self.nodes[id].last_child.is_some() {
            proof {
                assert(self@.nodes[id as int].last_child is Some);
                assert((id as int) < self@.nodes[id as int].last_child->0 < self@.nodes.len());
            }
            Some(id + 1)
        } else {
            None
        }
    }

    /// The next sibling of a node, if any, found through the subtree-skip
    /// pointer in constant time.
    pub fn next_sibling(&self, id: usize) -> (r: Option<usize>)
        requires
            self.wf(),
            id < self@.nodes.len(),
        ensures
            r == spec_next_sibling(self@, id as int),
            (r matches Some(e) ==> id < e < self@.nodes.len()),
    {
        match self.nodes[id].next_subtree {
            Some(e) => {
                if e < self.nodes.len() && match (self.nodes[e].parent, self.nodes[id].parent) {
                    (Some(a), Some(b)) => a == b,
                    (None, None) => true,
                    _ => false,
                } {
                    proof {
                        assert((id as int) < spec_end(self@.nodes, id as int));
                    }
                    Some(e)
                } else {
                    None
                }
            },
            None => None,
        }
    }

    /// The ids of the node's children, in document order.
    pub fn children(&self, id: usize) -> (r: Vec<usize>)
        requires
            self.wf(),
            id < self@.nodes.len(),
        ensures
            r@ == spec_children(self@, id as int),
    {
        let mut out: Vec<usize> = Vec::new();
        let mut cur: Option<usize> = self.first_child(id);
        while cur.is_some()
            invariant
                self.wf(),
                (cur matches Some(c) ==> c < self@.nodes.len()),
                out@ + spec_sibling_chain(self@, cur) == spec_children(self@, id as int),
            decreases (match cur {
                Some(c) => self@.nodes.len() - c,
                None => 0int,
            }),
        {
            let c = cur.unwrap();
            out.push(c);
            cur = self.next_sibling(c);
            proof {
                lemma_chain_unfold(self@, c);
                assert(out@ + spec_sibling_chain(self@, cur) =~= (out@.drop_last()
                    + spec_sibling_chain(self@, Some(c))));
            }
        }
        proof {
            assert(out@ + spec_sibling_chain(self@, cur) =~= out@);
        }
        out
    }

    /// The id just past the node's whole subtree: its skip pointer, or the
    /// end of the document.
    pub fn subtree_end(&self, id: usize) -> (r: usize)
        requires
            self.wf(),
            id < self@.nodes.len(),
        ensures
            r as int == spec_subtree_end(self@, id as int),
            id < r <= self@.nodes.len(),
    {
        match self.nodes[id].next_subtree {
            Some(e) => {
                proof {
                    assert((id as int) < spec_end(self@.nodes, id as int));
                }
                e
            },
            None => self.nodes.len(),
        }
    }

    /// The ids of every node of the subtree rooted at `id`, itself
    /// included, in document order.
    pub fn descendants(&self, id: usize) -> (r: Vec<usize>)
        requires
            self.wf(),
            id < self@.nodes.len(),
        ensures
            r@.len() == spec_subtree_end(self@, id as int) - id,
            forall|k: int| 0 <= k < r@.len() ==> r@[k] == id + k,
    {
        let stop = self.subtree_end(id);
        let mut out: Vec<usize> = Vec::new();
        let mut j: usize = id;
        while j < stop
            invariant
                id <= j <= stop,
                out@.len() == j - id,
                forall|k: int| 0 <= k < out@.len() ==> out@[k] == id + k,
            decreases stop - j,
        {
            out.push(j);
            j = j + 1;
        }
        out
    }

    /// The value of the named, namespace-less attribute of this node.
    pub fn attribute<'a>(&'a self, id: usize, name: &str) -> (r: Option<&'a str>)
        requires
            self.wf(),
            id < self@.nodes.len(),
        ensures
            match r {
                Some(v) => spec_attribute(self@, id as int, name@) == Some(v@),
                None => spec_attribute(self@, id as int, name@) is None,
            },
    {
        let range: ShortRange = match &self.nodes[id].kind {
            NodeKind::Element { attributes, .. } => *attributes,
            _ => {
                return None;
            },
        };
        let mut k: usize = range.start;
        while k < range.end && k < self.attributes.len()
            invariant
                range.start <= k,
                spec_attribute(self@, id as int, name@) == spec_attr_lookup(
                    self@,
                    range.start as int,
                    range.end as int,
                    name@,
                ),
                spec_attr_lookup(self@, k as int, range.end as int, name@) == spec_attr_lookup(
                    self@,
                    range.start as int,
                    range.end as int,
                    name@,
                ),
            decreases range.end - k,
        {
            proof {
                assert(self@.attributes[k as int] == self.attributes@[k as int]@);
            }
            if self.attributes[k].name.namespace_idx.is_none() && crate::chars::str_eq(
                self.attributes[k].name.local_name.as_str(),
                name,
            ) {
                proof {
                    assert(spec_attr_lookup(self@, k as int, range.end as int, name@)
                        == Some(self@.attributes[k as int].value));
                }
                return Some(self.attributes[k].value.as_str());
            }
            proof {
                assert(spec_attr_lookup(self@, k as int, range.end as int, name@)
                    == spec_attr_lookup(self@, k as int + 1, range.end as int, name@));
            }
            k = k + 1;
        }
        proof {
            assert(spec_attr_lookup(self@, k as int, range.end as int, name@) is None);
        }
        None
    }

    /// The value of the named attribute, or a distinct not-found error.
    pub fn req_attribute<'a>(&'a self, id: usize, name: &'static str) -> (r: Result<
        &'a str,
        crate::parse::Error,
    >)
        requires
            self.wf(),
            id < self@.nodes.len(),
        ensures
            match r {
                Ok(v) => spec_attribute(self@, id as int, name@) == Some(v@),
                Err(e) => spec_attribute(self@, id as int, name@) is None && e@
                    == crate::parse::ErrorV::NodeNotFound(name@),
            },
    {
        match self.attribute(id, name) {
            Some(v) => Ok(v),
            None => Err(crate::parse::Error::NodeNotFound(name)),
        }
    }

    /// The text directly held by this node: a text node's content, or an
    /// element's leading text child.
    pub fn text<'a>(&'a self, id: usize) -> (r: Option<&'a str>)
        requires
            self.wf(),
            id < self@.nodes.len(),
        ensures
            match r {
                Some(v) => spec_node_text(self@, id as int) == Some(v@),
                None => spec_node_text(self@, id as int) is None,
            },
    {
        match &self.nodes[id].kind {
            NodeKind::Text(s) => Some(s.as_str()),
            NodeKind::Element { .. } => {
                match self.first_child(id) {
                    Some(c) => match &self.nodes[c].kind {
                        NodeKind::Text(s) => Some(s.as_str()),
                        _ => None,
                    },
                    None => None,
                }
            },
            _ => None,
        }
    }

    /// The concatenated content of every text node of the subtree rooted
    /// at `id`, in document order.
    pub fn text_content(&self, id: usize) -> (r: String)
        requires
            self.wf(),
            id < self@.nodes.len(),
        ensures
            r@ == spec_subtree_text(self@, id as int, spec_subtree_end(self@, id as int)),
    {
        let stop = self.subtree_end(id);
        let mut out = String::new();
        let mut j: usize = id;
        while j < stop
            invariant
                id <= j <= stop,
                stop as int <= self@.nodes.len(),
                out@ + spec_subtree_text(self@, j as int, stop as int) == spec_subtree_text(
                    self@,
                    id as int,
                    stop as int,
                ),
            decreases stop - j,
        {
            match &self.nodes[j].kind {
                NodeKind::Text(s) => {
                    out.append(s.as_str());
                },
                _ => {},
            }
            j = j + 1;
        }
        out
    }

    /// The document's single root element.
    pub fn root_element(&self) -> (r: Option<usize>)
        requires
            self.wf(),
        ensures
            ({
                let kids = spec_children(self@, 0);
                match r {
                    Some(c) => exists|k: int|
                        0 <= k < kids.len() && kids[k] == c && self@.nodes[c as int].kind
                            is Element && (forall|m: int|
                            0 <= m < k ==> !(self@.nodes[kids[m] as int].kind is Element)),
                    None => forall|k: int|
                        0 <= k < kids.len() ==> !(self@.nodes[kids[k] as int].kind is Element),
                }
            }),
    {
        let kids = self.children(0);
        let mut k: usize = 0;
        proof {
            lemma_sibling_chain_in_bounds(self@, spec_first_child(self@, 0));
        }
        while k < kids.len()
            invariant
                self.wf(),
                0 <= k <= kids@.len(),
                kids@ == spec_children(self@, 0),
                forall|m: int| 0 <= m < kids@.len() ==> (#[trigger] kids@[m] as int) < self@.nodes.len(),
                forall|m: int| 0 <= m < k ==> !(self@.nodes[kids@[m] as int].kind is Element),
            decreases kids@.len() - k,
        {
            if self.is_element(kids[k]) {
                return Some(kids[k]);
            }
            k = k + 1;
        }
        None
    }
}

/// The concatenated content of the text nodes with ids in `[lo, hi)`.
pub open spec fn spec_subtree_text(d: DocumentV, lo: int, hi: int) -> Seq<char>
    decreases hi - lo,
{
    if lo < 0 || lo >= hi || lo >= d.nodes.len() {
        Seq::empty()
    } else {
        (match d.nodes[lo].kind {
            NodeKindV::Text(s) => s,
            _ => Seq::empty(),
        }) + spec_subtree_text(d, lo + 1, hi)
    }
}

/// An ancestor always has a smaller id.
pub proof fn lemma_anc_below(nodes: Seq<NodeV>, k: int, j: int)
    ensures
        spec_anc(nodes, k, j) ==> j < k,
    decreases k,
{
    if 0 < k < nodes.len() {
        match nodes[k].parent {
            Some(p) => {
                if (p as int) < k {
                    lemma_anc_below(nodes, p as int, j);
                }
            },
            None => {},
        }
    }
}

/// Ancestry is transitive.
proof fn lemma_anc_trans(nodes: Seq<NodeV>, k: int, c: int, p: int)
    requires
        spec_anc(nodes, k, c),
        spec_anc(nodes, c, p),
    ensures
        spec_anc(nodes, k, p),
    decreases k,
{
    if 0 < k < nodes.len() {
        match nodes[k].parent {
            Some(q) => {
                if (q as int) < k && q as int != c {
                    lemma_anc_trans(nodes, q as int, c, p);
                }
            },
            None => {},
        }
    }
}

/// In a well-formed arena every node other than the root descends from
/// the root.
proof fn lemma_anc_root(nodes: Seq<NodeV>, k: int)
    requires
        spec_wf_parents(nodes),
        0 < k < nodes.len(),
    ensures
        spec_anc(nodes, k, 0),
    decreases k,
{
    match nodes[k].parent {
        Some(p) => {
            if p as int != 0 {
                lemma_anc_root(nodes, p as int);
            }
        },
        None => {},
    }
}

/// A subtree nests inside its ancestors' subtrees.
proof fn lemma_subtree_nested(d: DocumentV, c: int, p: int)
    requires
        spec_wf_doc(d),
        0 <= p < d.nodes.len(),
        0 <= c < d.nodes.len(),
        spec_anc(d.nodes, c, p),
    ensures
        p < c,
        c < spec_end(d.nodes, p),
        spec_end(d.nodes, c) <= spec_end(d.nodes, p),
{
    let nodes = d.nodes;
    lemma_anc_below(nodes, c, p);
    if spec_end(nodes, c) > spec_end(nodes, p) {
        let k = spec_end(nodes, p);
        assert(c < k < spec_end(nodes, c));
        assert(spec_anc(nodes, k, c));
        lemma_anc_trans(nodes, k, c, p);
    }
}

/// The node right after a child's subtree, when it still lies inside the
/// parent's subtree, is the next child of the same parent.
proof fn lemma_sibling_start(d: DocumentV, c: int, p: int)
    requires
        spec_wf_doc(d),
        0 <= p < d.nodes.len(),
        0 <= c < d.nodes.len(),
        d.nodes[c].parent == Some(p as usize),
        spec_end(d.nodes, c) < spec_end(d.nodes, p),
    ensures
        spec_end(d.nodes, c) < d.nodes.len(),
        d.nodes[spec_end(d.nodes, c)].parent == Some(p as usize),
{
    let nodes = d.nodes;
    let e = spec_end(nodes, c);
    assert(spec_anc(nodes, c, p));
    lemma_subtree_nested(d, c, p);
    assert(p < c < e);
    assert(e < spec_end(nodes, p) <= nodes.len());
    assert(spec_anc(nodes, e, p));
    match nodes[e].parent {
        None => {
            assert(false);
        },
        Some(q0) => {
            let q = q0 as int;
            assert(q < e);
            if q != p {
                assert(spec_anc(nodes, q, p));
                lemma_anc_below(nodes, q, p);
                if q < c {
                    // Then `c` would sit inside `q`'s subtree, making `q` an
                    // ancestor of `c` greater than its parent `p`.
                    assert(spec_anc(nodes, e, q));
                    assert(e < spec_end(nodes, q));
                    assert(q < c < spec_end(nodes, q));
                    assert(spec_anc(nodes, c, q));
                    lemma_anc_below(nodes, p, q);
                } else if q == c {
                    assert(spec_anc(nodes, e, c));
                    assert(e < spec_end(nodes, c));
                } else {
                    assert(c < q < e);
                    assert(spec_anc(nodes, q, c));
                    lemma_subtree_nested(d, q, c);
                    assert(spec_anc(nodes, e, q));
                    assert(e < spec_end(nodes, q));
                    assert(spec_end(nodes, q) <= spec_end(nodes, c));
                }
            }
        },
    }
}

/// A node's first child, when it has one, is the very next id, and a
/// childless node's subtree is the node alone.
proof fn lemma_first_child_shape(d: DocumentV, p: int)
    requires
        spec_wf_doc(d),
        0 <= p < d.nodes.len(),
    ensures
        d.nodes[p].last_child is None ==> spec_end(d.nodes, p) == p + 1,
        d.nodes[p].last_child is Some ==> p + 1 < d.nodes.len() && d.nodes[p + 1].parent == Some(
            p as usize,
        ) && p + 1 < spec_end(d.nodes, p),
    decreases 0int,
{
    let nodes = d.nodes;
    if p + 1 < spec_end(nodes, p) {
        assert(spec_anc(nodes, p + 1, p));
        match nodes[p + 1].parent {
            Some(q) => {
                if q as int != p {
                    assert(spec_anc(nodes, q as int, p));
                    lemma_anc_below(nodes, q as int, p);
                }
            },
            None => {},
        }
        assert(nodes[p + 1].parent == Some(p as usize));
        match nodes[p].last_child {
            Some(_) => {},
            None => {
                assert(nodes[p + 1].parent != Some(p as usize));
            },
        }
    } else {
        assert(spec_end(nodes, p) == p + 1);
        match nodes[p].last_child {
            Some(c) => {
                assert(nodes[c as int].parent == Some(p as usize));
                assert(spec_anc(nodes, c as int, p));
                assert(p < (c as int) && (c as int) < spec_end(nodes, p));
            },
            None => {},
        }
    }
}

/// The pre-order visit of a subtree: the node itself, then each child's
/// subtree in sibling order.
pub open spec fn spec_visit(d: DocumentV, j: int) -> Seq<int>
    decreases d.nodes.len() - j, 0int,
{
    if 0 <= j < d.nodes.len() && d.nodes.len() <= usize::MAX {
        seq![j] + spec_visit_kids(d, spec_first_child(d, j))
    } else {
        Seq::empty()
    }
}

/// The pre-order visit of a sibling chain.
pub open spec fn spec_visit_kids(d: DocumentV, cur: Option<usize>) -> Seq<int>
    decreases (match cur {
        Some(c) => d.nodes.len() - c,
        None => 0,
    }), 1int,
{
    match cur {
        Some(c) => if 0 <= c < d.nodes.len() {
            let rest = match spec_next_sibling(d, c as int) {
                Some(e) => if c < e {
                    spec_visit_kids(d, Some(e))
                } else {
                    Seq::empty()
                },
                None => Seq::empty(),
            };
            spec_visit(d, c as int) + rest
        } else {
            Seq::empty()
        },
        None => Seq::empty(),
    }
}

/// The pre-order visit of a subtree is exactly its id interval, in
/// increasing order.
pub proof fn lemma_visit_is_interval(d: DocumentV, j: int)
    requires
        spec_wf_doc(d),
        0 <= j < d.nodes.len(),
    ensures
        spec_visit(d, j) =~= Seq::new((spec_end(d.nodes, j) - j) as nat, |k: int| j + k),
    decreases d.nodes.len() - j, 0int,
{
    let nodes = d.nodes;
    lemma_first_child_shape(d, j);
    match nodes[j].last_child {
        None => {
            assert(spec_end(nodes, j) == j + 1);
            assert(spec_first_child(d, j) is None);
        },
        Some(_) => {
            assert(spec_first_child(d, j) == Some((j + 1) as usize));
            lemma_visit_kids_interval(d, j + 1, j);
        },
    }
}

/// The pre-order visit of the sibling chain starting at a child `c` of `p`
/// covers exactly the ids from `c` to the end of `p`'s subtree.
proof fn lemma_visit_kids_interval(d: DocumentV, c: int, p: int)
    requires
        spec_wf_doc(d),
        0 <= p < d.nodes.len(),
        0 <= c < d.nodes.len(),
        d.nodes[c].parent == Some(p as usize),
    ensures
        spec_visit_kids(d, Some(c as usize)) =~= Seq::new(
            (spec_end(d.nodes, p) - c) as nat,
            |k: int| c + k,
        ),
    decreases d.nodes.len() - c, 1int,
{
    let nodes = d.nodes;
    assert(spec_anc(nodes, c, p));
    lemma_subtree_nested(d, c, p);
    lemma_visit_is_interval(d, c);
    let ec = spec_end(nodes, c);
    let ep = spec_end(nodes, p);
    if ec < ep {
        lemma_sibling_start(d, c, p);
        assert(nodes[c].next_subtree == Some(ec as usize)) by {
            if nodes[c].next_subtree is None {
                assert(spec_end(nodes, c) == nodes.len());
            }
        }
        assert(spec_next_sibling(d, c) == Some(ec as usize));
        lemma_visit_kids_interval(d, ec, p);
    } else {
        assert(ec == ep);
        assert(spec_next_sibling(d, c) is None) by {
            match nodes[c].next_subtree {
                Some(e) => {
                    if e < nodes.len() && nodes[e as int].parent == nodes[c].parent {
                        assert(spec_anc(nodes, e as int, p));
                        assert(!spec_anc(nodes, ep, p));
                    }
                },
                None => {},
            }
        }
    }
}

/// Law: pre-order traversal by child links visits the node ids in strictly
/// increasing order; over the whole document it visits exactly
/// `0, 1, 2, ...` in turn, so ids reflect document order.
pub proof fn lemma_preorder_ids_increase(d: DocumentV)
    requires
        spec_wf_doc(d),
    ensures
        spec_visit(d, 0) =~= Seq::new(d.nodes.len(), |k: int| k),
        forall|a: int, b: int|
            0 <= a < b < spec_visit(d, 0).len() ==> spec_visit(d, 0)[a] < spec_visit(d, 0)[b],
{
    lemma_visit_is_interval(d, 0);
    assert(spec_end(d.nodes, 0) == d.nodes.len()) by {
        if d.nodes[0].next_subtree is Some {
            let e = spec_end(d.nodes, 0);
            assert(0 < e < d.nodes.len());
            lemma_anc_root(d.nodes, e);
            assert(!spec_anc(d.nodes, e, 0));
        }
    }
}

/// Law: the subtree-skip pointer of every node is the smallest id past its
/// whole subtree: absent when the subtree runs to the document's end, else
/// the least id greater than every id in the subtree, with everything
/// between the node and that id inside the subtree.
pub proof fn lemma_next_subtree_law(d: DocumentV, n: int)
    requires
        spec_wf_doc(d),
        0 <= n < d.nodes.len(),
    ensures
        (match d.nodes[n].next_subtree {
            Some(e) => n < e < d.nodes.len() && (forall|k: int|
                0 <= k < d.nodes.len() && #[trigger] spec_in_subtree(d.nodes, k, n) ==> k < e)
                && (forall|k: int| n < k < e ==> #[trigger] spec_in_subtree(d.nodes, k, n)),
            None => forall|k: int|
                n < k < d.nodes.len() ==> #[trigger] spec_in_subtree(d.nodes, k, n),
        }),
{
    let nodes = d.nodes;
    match nodes[n].next_subtree {
        Some(e0) => {
            let e = e0 as int;
            assert(spec_end(nodes, n) == e);
            assert forall|k: int|
                0 <= k < nodes.len() && #[trigger] spec_in_subtree(nodes, k, n) implies k < e by {
                if k != n {
                    lemma_anc_below(nodes, k, n);
                    if k >= e {
                        assert(!spec_anc(nodes, k, n));
                    }
                }
            }
            assert forall|k: int| n < k < e implies #[trigger] spec_in_subtree(nodes, k, n) by {
                assert(spec_anc(nodes, k, n));
            }
        },
        None => {
            assert forall|k: int|
                n < k < nodes.len() implies #[trigger] spec_in_subtree(nodes, k, n) by {
                assert(n < k < spec_end(nodes, n));
                assert(spec_anc(nodes, k, n));
            }
        },
    }
}

/// One step of the sibling walk, under well-formedness.
pub proof fn lemma_chain_unfold(d: DocumentV, c: usize)
    requires
        spec_wf_doc(d),
        c < d.nodes.len(),
    ensures
        (spec_next_sibling(d, c as int) matches Some(e) ==> c < e < d.nodes.len()),
        spec_sibling_chain(d, Some(c)) == seq![c] + spec_sibling_chain(
            d,
            spec_next_sibling(d, c as int),
        ),
{
    assert((c as int) < spec_end(d.nodes, c as int));
    assert((spec_next_sibling(d, c as int) matches Some(e) ==> c < e < d.nodes.len()));
    match spec_next_sibling(d, c as int) {
        Some(e) => {
            assert(spec_sibling_chain(d, Some(c)) == seq![c] + spec_sibling_chain(d, Some(e)));
        },
        None => {
            assert(spec_sibling_chain(d, Some(c)) =~= seq![c] + spec_sibling_chain(
                d,
                None::<usize>,
            ));
        },
    }
}

/// Every id a sibling walk yields is a valid node id.
pub proof fn lemma_sibling_chain_in_bounds(d: DocumentV, cur: Option<usize>)
    requires
        spec_wf_doc(d),
        (cur matches Some(c) ==> c < d.nodes.len()),
    ensures
        forall|m: int|
            0 <= m < spec_sibling_chain(d, cur).len() ==> (#[trigger] spec_sibling_chain(d, cur)[m]
                as int) < d.nodes.len(),
    decreases (match cur {
        Some(c) => d.nodes.len() - c,
        None => 0int,
    }),
{
    match cur {
        Some(c) => {
            lemma_chain_unfold(d, c);
            lemma_sibling_chain_in_bounds(d, spec_next_sibling(d, c as int));
        },
        None => {},
    }
}

} // verus!
