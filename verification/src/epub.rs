//! E-book values built out of parsed documents: package metadata and
//! chapters. Container access, archive reading and the rendering of chapter
//! bodies to styled text live with the caller.

use vstd::prelude::*;

use crate::tree::{Document, DocumentV, spec_children, spec_tag_name, spec_node_text,
    lemma_sibling_chain_in_bounds, spec_first_child};
use crate::chars::str_eq;

verus! {

/// The package metadata of an e-book.
#[derive(Debug, Clone)]
pub struct Metadata {
    pub title: Option<String>,
    pub creator: Option<String>,
    pub language: Option<String>,
    pub date: Option<String>,
    pub identifier: Option<String>,
    pub description: Option<String>,
    pub publisher: Option<String>,
}

/// The mathematical shape of a [`Metadata`].
#[verifier::ext_equal]
pub struct MetadataV {
    pub title: Option<Seq<char>>,
    pub creator: Option<Seq<char>>,
    pub language: Option<Seq<char>>,
    pub date: Option<Seq<char>>,
    pub identifier: Option<Seq<char>>,
    pub description: Option<Seq<char>>,
    pub publisher: Option<Seq<char>>,
}

/// The view of an optional owned string.
pub open spec fn opt_view(s: Option<String>) -> Option<Seq<char>> {
    match s {
        Some(x) => Some(x@),
        None => None,
    }
}

impl View for Metadata {
    type V = MetadataV;

    open spec fn view(&self) -> MetadataV {
        MetadataV {
            title: opt_view(self.title),
            creator: opt_view(self.creator),
            language: opt_view(self.language),
            date: opt_view(self.date),
            identifier: opt_view(self.identifier),
            description: opt_view(self.description),
            publisher: opt_view(self.publisher),
        }
    }
}

/// Metadata with nothing filled in.
pub open spec fn spec_meta_empty() -> MetadataV {
    MetadataV {
        title: None,
        creator: None,
        language: None,
        date: None,
        identifier: None,
        description: None,
        publisher: None,
    }
}

/// What one metadata child contributes: a known tag stores the node's text
/// in its field, everything else changes nothing.
pub open spec fn spec_meta_step(d: DocumentV, c: int, acc: MetadataV) -> MetadataV {
    if 0 <= c < d.nodes.len() && d.nodes[c].kind is Element {
        let tag = spec_tag_name(d, c);
        let txt = spec_node_text(d, c);
        if tag == "title"@ {
            MetadataV { title: txt, ..acc }
        } else if tag == "creator"@ {
            MetadataV { creator: txt, ..acc }
        } else if tag == "language"@ {
            MetadataV { language: txt, ..acc }
        } else if tag == "identifier"@ {
            MetadataV { identifier: txt, ..acc }
        } else if tag == "publisher"@ {
            MetadataV { publisher: txt, ..acc }
        } else if tag == "description"@ {
            MetadataV { description: txt, ..acc }
        } else if tag == "date"@ {
            MetadataV { date: txt, ..acc }
        } else {
            acc
        }
    } else {
        acc
    }
}

/// Folds the metadata element's children from `i` on.
pub open spec fn spec_meta_fold(d: DocumentV, kids: Seq<usize>, i: int, acc: MetadataV) -> MetadataV
    decreases kids.len() - i,
{
    if i < 0 || i >= kids.len() {
        acc
    } else {
        spec_meta_fold(d, kids, i + 1, spec_meta_step(d, kids[i] as int, acc))
    }
}

/// The metadata a package's metadata element holds.
pub open spec fn spec_metadata(d: DocumentV, node: int) -> MetadataV {
    spec_meta_fold(d, spec_children(d, node), 0, spec_meta_empty())
}

/// Clones the text directly held by a node, if any.
fn text_of(doc: &Document, id: usize) -> (r: Option<String>)
    requires
        doc.wf(),
        id < doc@.nodes.len(),
    ensures
        opt_view(r) == spec_node_text(doc@, id as int),
{
    match doc.text(id) {
        Some(t) => Some(t.to_owned()),
        None => None,
    }
}

impl Metadata {
    /// Collects the package metadata out of the metadata element's
    /// children.
    pub fn new(doc: &Document, metadata_node: usize) -> (r: Metadata)
        requires
            doc.wf(),
            metadata_node < doc@.nodes.len(),
        ensures
            r@ == spec_metadata(doc@, metadata_node as int),
    {
        let ghost kidsv = spec_children(doc@, metadata_node as int);
        let mut metadata = Metadata {
            title: None,
            creator: None,
            language: None,
            identifier: None,
            publisher: None,
            date: None,
            description: None,
        };
        proof {
            assert(metadata@ =~= spec_meta_empty());
            lemma_sibling_chain_in_bounds(doc@, spec_first_child(doc@, metadata_node as int));
        }
        let kids = doc.children(metadata_node);
        let mut i: usize = 0;
        while i < kids.len()
            invariant
                doc.wf(),
                0 <= i <= kidsv.len(),
                kids@ == kidsv,
                kidsv == spec_children(doc@, metadata_node as int),
                forall|m: int| 0 <= m < kidsv.len() ==> (#[trigger] kidsv[m] as int) < doc@.nodes.len(),
                spec_meta_fold(doc@, kidsv, i as int, metadata@) == spec_metadata(
                    doc@,
                    metadata_node as int,
                ),
            decreases kidsv.len() - i,
        {
            let child = kids[i];
            let ghost before = metadata@;
            if doc.is_element(child) {
                if doc.has_tag_name(child, "title") {
                    metadata.title = text_of(doc, child);
                } else if doc.has_tag_name(child, "creator") {
                    metadata.creator = text_of(doc, child);
                } else if doc.has_tag_name(child, "language") {
                    metadata.language = text_of(doc, child);
                } else if doc.has_tag_name(child, "identifier") {
                    metadata.identifier = text_of(doc, child);
                } else if doc.has_tag_name(child, "publisher") {
                    metadata.publisher = text_of(doc, child);
                } else if doc.has_tag_name(child, "description") {
                    metadata.description = text_of(doc, child);
                } else if doc.has_tag_name(child, "date") {
                    metadata.date = text_of(doc, child);
                }
            }
            proof {
                assert(metadata@ =~= spec_meta_step(doc@, kidsv[i as int] as int, before));
            }
            i = i + 1;
        }
        metadata
    }
}

/// One chapter of an e-book: its path inside the container and, once the
/// caller has rendered it, its styled text and anchor offsets.
#[derive(Debug, Clone)]
pub struct Chapter {
    pub relative_path: String,
    pub text: String,
    pub ids: Vec<(String, usize)>,
    pub is_parsed: bool,
}

impl Chapter {
    /// A chapter that has not been rendered yet.
    pub fn new(path: &str) -> (r: Chapter)
        ensures
            r.relative_path@ == path@,
            r.text@ == Seq::<char>::empty(),
            r.ids@.len() == 0,
            !r.is_parsed,
    {
        Chapter {
            relative_path: path.to_owned(),
            text: String::new(),
            ids: Vec::new(),
            is_parsed: false,
        }
    }
}

} // verus!
