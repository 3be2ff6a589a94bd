use cauldron::{Document, ElementEnd, ParseError, ParsingOptions, Event};

#[test]
fn structure_and_skip_pointers() {
    // <a><b><c/></b>t<d/></a>
    let doc = Document::parse("<a><b><c/></b>t<d/></a>").unwrap();
    assert_eq!(doc.node_count(), 6);
    let a = doc.root_element().unwrap();
    assert_eq!(a, 1);
    assert_eq!(doc.tag_name(a), "a");
    let kids = doc.children(a);
    assert_eq!(kids, vec![2, 4, 5]);
    assert_eq!(doc.tag_name(2), "b");
    assert!(doc.is_text(4));
    assert_eq!(doc.tag_name(5), "d");
    assert_eq!(doc.children(2), vec![3]);
    // The subtree of b is {2, 3}; the first node after it is the text node.
    assert_eq!(doc.subtree_end(2), 4);
    assert_eq!(doc.subtree_end(3), 4);
    assert_eq!(doc.subtree_end(4), 5);
    // The last subtrees run to the end of the document.
    assert_eq!(doc.subtree_end(5), 6);
    assert_eq!(doc.subtree_end(a), 6);
    assert_eq!(doc.descendants(2), vec![2, 3]);
    assert_eq!(doc.descendants(a), vec![1, 2, 3, 4, 5]);
}

#[test]
fn node_ids_increase_in_document_order() {
    // Pre-order traversal by links visits strictly increasing ids: the
    // skip-pointer traversal and a full recursive walk agree.
    let doc = Document::parse(
        "<r><a><b/><c><d/>x</c></a><e/>y<f><g><h/></g></f></r>",
    )
    .unwrap();
    let mut visited: Vec<usize> = Vec::new();
    let mut stack = vec![doc.root()];
    while let Some(n) = stack.pop() {
        visited.push(n);
        let mut kids = doc.children(n);
        kids.reverse();
        for k in kids {
            stack.push(k);
        }
    }
    let expected: Vec<usize> = (0..doc.node_count()).collect();
    assert_eq!(visited, expected);
}

#[test]
fn namespaces_resolve_by_scope() {
    let doc = Document::parse("<e xmlns:p='u1'><f p:a='1'/></e>").unwrap();
    let e = doc.root_element().unwrap();
    let kids = doc.children(e);
    assert_eq!(kids.len(), 1);
    // The attribute is namespaced, so a plain lookup does not find it.
    assert_eq!(doc.attribute(kids[0], "a"), None);
}

#[test]
fn builder_accepts_a_hand_made_stream() {
    // The builder consumes events directly; the scanner is only one source
    // of them.
    let tokens = vec![
        Event::ElementStart { prefix: String::new(), local: "e".to_string(), start: 0 },
        Event::Attribute {
            prefix: String::new(),
            local: "a".to_string(),
            value: "v".to_string(),
            pos: 3,
            value_pos: 6,
        },
        Event::ElementEnd { end: ElementEnd::Open, pos: 8 },
        Event::Text { text: "hi".to_string(), pos: 9 },
        Event::ElementEnd {
            end: ElementEnd::Close(String::new(), "e".to_string()),
            pos: 11,
        },
    ];
    let doc = Document::build(
        "<e a='v'>hi</e>",
        tokens,
        ParsingOptions { allow_dtd: true, nodes_limit: u32::MAX },
    )
    .unwrap();
    let e = doc.root_element().unwrap();
    assert_eq!(doc.attribute(e, "a"), Some("v"));
    assert_eq!(doc.text(e), Some("hi"));
}

#[test]
fn close_with_nothing_open_fails_distinctly() {
    // A close event with no element ever opened at this level fails apart
    // from a normal mismatch.
    let tokens = vec![
        Event::ElementEnd {
            end: ElementEnd::Close(String::new(), "p".to_string()),
            pos: 0,
        },
    ];
    let e = Document::build(
        "</p>",
        tokens,
        ParsingOptions { allow_dtd: true, nodes_limit: u32::MAX },
    )
    .unwrap_err();
    assert!(matches!(e, ParseError::UnexpectedEntityCloseTag(_)));
}

#[test]
fn two_top_level_elements_are_rejected() {
    let tokens = vec![
        Event::ElementStart { prefix: String::new(), local: "a".to_string(), start: 0 },
        Event::ElementEnd { end: ElementEnd::Empty, pos: 2 },
        Event::ElementStart { prefix: String::new(), local: "b".to_string(), start: 5 },
        Event::ElementEnd { end: ElementEnd::Empty, pos: 7 },
    ];
    let e = Document::build(
        "<a/><b/>",
        tokens,
        ParsingOptions { allow_dtd: true, nodes_limit: u32::MAX },
    )
    .unwrap_err();
    assert_eq!(e, ParseError::NoRootNode);
}

#[test]
fn skip_traversal_matches_recursive_traversal() {
    // The skip-pointer subtree walk and the full recursive child walk
    // yield the same nodes, on every subtree.
    let doc = Document::parse(
        "<r><a><b/><c><d/>x</c></a><e/>y<f><g><h/></g></f></r>",
    )
    .unwrap();
    for n in 0..doc.node_count() {
        let mut recursive: Vec<usize> = Vec::new();
        let mut stack = vec![n];
        while let Some(k) = stack.pop() {
            recursive.push(k);
            let mut kids = doc.children(k);
            kids.reverse();
            for c in kids {
                stack.push(c);
            }
        }
        assert_eq!(doc.descendants(n), recursive);
    }
}

#[test]
fn subtree_text_concatenates_in_document_order() {
    let doc = Document::parse("<r>a<x>b<y>c</y>d</x>e</r>").unwrap();
    let r = doc.root_element().unwrap();
    assert_eq!(doc.text_content(r), "abcde");
    let kids = doc.children(r);
    // The middle child is the x element.
    assert_eq!(doc.text_content(kids[1]), "bcd");
}
