use cauldron::{Document, ParseError, ParsingOptions, TextPos};

fn parse_err(text: &str) -> ParseError {
    match Document::parse(text) {
        Ok(_) => panic!("expected a parse error for {:?}", text),
        Err(e) => e,
    }
}

#[test]
fn duplicate_attribute_after_resolution() {
    // Both attributes resolve to the same (namespace, local) pair despite
    // different source prefixes: a duplicate attribute, not a duplicate
    // namespace.
    let e = parse_err("<e xmlns:n1='u' xmlns:n2='u' n1:a='1' n2:a='2'/>");
    match e {
        ParseError::DuplicatedAttribute(name, _) => assert_eq!(name, "a"),
        other => panic!("wrong error: {:?}", other),
    }
}

#[test]
fn mismatched_close_tag() {
    let e = parse_err("<a><b></a>");
    match e {
        ParseError::UnexpectedCloseTag(expected, actual, pos) => {
            assert_eq!(expected, "b");
            assert_eq!(actual, "a");
            assert_eq!(pos, TextPos::new(1, 7));
        }
        other => panic!("wrong error: {:?}", other),
    }
}

#[test]
fn mismatched_close_tag_with_prefix() {
    let e = parse_err("<x:a xmlns:x='u'><x:b></x:a>");
    match e {
        ParseError::UnexpectedCloseTag(expected, actual, _) => {
            assert_eq!(expected, "x:b");
            assert_eq!(actual, "x:a");
        }
        other => panic!("wrong error: {:?}", other),
    }
}

#[test]
fn attribute_value_whitespace_normalizes() {
    let doc = Document::parse("<e a=\"x\ty\nz\"/>").unwrap();
    let root = doc.root_element().unwrap();
    assert_eq!(doc.attribute(root, "a"), Some("x y z"));
}

#[test]
fn attribute_value_crlf_pair_collapses() {
    let doc = Document::parse("<e a=\"x\r\ny\rz\"/>").unwrap();
    let root = doc.root_element().unwrap();
    assert_eq!(doc.attribute(root, "a"), Some("x y z"));
}

#[test]
fn text_line_endings_normalize() {
    let doc = Document::parse("<e>l1\r\nl2\rl3</e>").unwrap();
    let root = doc.root_element().unwrap();
    assert_eq!(doc.text(root), Some("l1\nl2\nl3"));
}

#[test]
fn declaration_alone_has_no_root() {
    let e = parse_err("<?xml version=\"1.0\"?>");
    assert_eq!(e, ParseError::NoRootNode);
    assert_eq!(e.pos(), TextPos::new(1, 1));
}

#[test]
fn unclosed_root_element() {
    let e = parse_err("<root>");
    assert_eq!(e, ParseError::UnclosedRootNode);
}

#[test]
fn normalized_text_reparses_to_itself() {
    // Normalization is idempotent: re-parsing the normalized content of a
    // text node yields the same string.
    let doc = Document::parse("<e>one\r\ntwo\rthree \t four</e>").unwrap();
    let root = doc.root_element().unwrap();
    let t = doc.text(root).unwrap().to_string();
    let again = format!("<e>{}</e>", t);
    let doc2 = Document::parse(&again).unwrap();
    let root2 = doc2.root_element().unwrap();
    assert_eq!(doc2.text(root2), Some(t.as_str()));
}

#[test]
fn character_references_decode() {
    let doc = Document::parse("<e>&#65;&#x42;&amp;&lt;&gt;&apos;&quot;</e>").unwrap();
    let root = doc.root_element().unwrap();
    assert_eq!(doc.text(root), Some("AB&<>'\""));
}

#[test]
fn decoded_carriage_return_stays() {
    // A carriage return that comes out of a character reference bypasses
    // line-ending normalization.
    let doc = Document::parse("<e>a&#13;b</e>").unwrap();
    let root = doc.root_element().unwrap();
    assert_eq!(doc.text(root), Some("a\rb"));
}

#[test]
fn malformed_reference_fails() {
    let e = parse_err("<e>&#;</e>");
    assert!(matches!(e, ParseError::MalformedEntityReference(_)));
}

#[test]
fn undefined_entity_without_subset_is_malformed() {
    let e = parse_err("<e>&nope;</e>");
    assert!(matches!(e, ParseError::MalformedEntityReference(_)));
}

#[test]
fn undefined_entity_with_subset_is_unknown() {
    let e = parse_err("<!DOCTYPE e [ <!ENTITY a 'x'> ]><e>&nope;</e>");
    match e {
        ParseError::UnknownEntityReference(name, _) => assert_eq!(name, "nope"),
        other => panic!("wrong error: {:?}", other),
    }
}

#[test]
fn internal_subset_entity_decodes() {
    let doc = Document::parse("<!DOCTYPE e [ <!ENTITY who 'world'> ]><e>hello &who;</e>").unwrap();
    let root = doc.root_element().unwrap();
    assert_eq!(doc.text(root), Some("hello world"));
}

#[test]
fn subset_ignored_when_dtd_disallowed() {
    let opts = ParsingOptions { allow_dtd: false, nodes_limit: u32::MAX };
    let e = match Document::parse_with_options(
        "<!DOCTYPE e [ <!ENTITY who 'world'> ]><e>hello &who;</e>",
        opts,
    ) {
        Ok(_) => panic!("expected an error"),
        Err(e) => e,
    };
    assert!(matches!(e, ParseError::MalformedEntityReference(_)));
}

#[test]
fn nodes_limit_is_enforced() {
    let opts = ParsingOptions { allow_dtd: true, nodes_limit: 2 };
    let e = match Document::parse_with_options("<a><b/><c/></a>", opts) {
        Ok(_) => panic!("expected an error"),
        Err(e) => e,
    };
    assert_eq!(e, ParseError::NodesLimitReached);
}

#[test]
fn xmlns_element_prefix_is_rejected() {
    let e = parse_err("<xmlns:e/>");
    assert!(matches!(e, ParseError::InvalidElementNamePrefix(_)));
}

#[test]
fn xml_prefix_must_keep_its_uri() {
    let e = parse_err("<e xmlns:xml='http://wrong'/>");
    assert!(matches!(e, ParseError::InvalidXmlPrefixUri(_)));
}

#[test]
fn xml_uri_only_for_xml_prefix() {
    let e = parse_err("<e xmlns:other='http://www.w3.org/XML/1998/namespace'/>");
    assert!(matches!(e, ParseError::UnexpectedXmlUri(_)));
}

#[test]
fn xmlns_uri_must_not_be_declared() {
    let e = parse_err("<e xmlns:n='http://www.w3.org/2000/xmlns/'/>");
    assert!(matches!(e, ParseError::UnexpectedXmlnsUri(_)));
}

#[test]
fn duplicated_namespace_on_one_element() {
    let e = parse_err("<e xmlns:n='a' xmlns:n='b'/>");
    match e {
        ParseError::DuplicatedNamespace(name, _) => assert_eq!(name, "n"),
        other => panic!("wrong error: {:?}", other),
    }
}

#[test]
fn unknown_namespace_prefix() {
    let e = parse_err("<e random:a='b'/>");
    match e {
        ParseError::UnknownNamespace(prefix, _) => assert_eq!(prefix, "random"),
        other => panic!("wrong error: {:?}", other),
    }
}

#[test]
fn cdata_is_taken_verbatim() {
    let doc = Document::parse("<e><![CDATA[a &amp; b]]></e>").unwrap();
    let root = doc.root_element().unwrap();
    assert_eq!(doc.text(root), Some("a &amp; b"));
}

#[test]
fn adjacent_text_runs_merge() {
    // Text, a CDATA section, and more text merge into one text node.
    let doc = Document::parse("<e>a<![CDATA[b]]>c</e>").unwrap();
    let root = doc.root_element().unwrap();
    let kids = doc.children(root);
    assert_eq!(kids.len(), 1);
    assert_eq!(doc.text(root), Some("abc"));
}

#[test]
fn required_attribute_reports_not_found() {
    let doc = Document::parse("<e a='1'/>").unwrap();
    let root = doc.root_element().unwrap();
    assert_eq!(doc.req_attribute(root, "a"), Ok("1"));
    match doc.req_attribute(root, "missing") {
        Err(ParseError::NodeNotFound(name)) => assert_eq!(name, "missing"),
        other => panic!("wrong result: {:?}", other),
    }
}

#[test]
fn xml_prefixed_attributes_use_the_fixed_namespace() {
    // The xml prefix needs no declaration; the attribute is namespaced, so
    // a plain lookup does not see it.
    let doc = Document::parse("<e xml:lang='en' a='1'/>").unwrap();
    let root = doc.root_element().unwrap();
    assert_eq!(doc.attribute(root, "lang"), None);
    assert_eq!(doc.attribute(root, "a"), Some("1"));
}

#[test]
fn default_namespace_leaves_attributes_alone() {
    // An unprefixed attribute never takes the default namespace.
    let doc = Document::parse("<e xmlns='u' a='1'/>").unwrap();
    let root = doc.root_element().unwrap();
    assert_eq!(doc.attribute(root, "a"), Some("1"));
}

#[test]
fn nested_scopes_inherit_declarations() {
    let doc = Document::parse("<a xmlns:p='u'><b><c p:x='1'/></b></a>").unwrap();
    let a = doc.root_element().unwrap();
    let b = doc.children(a)[0];
    let c = doc.children(b)[0];
    assert!(doc.is_element(c));
    // The p prefix resolves deep below its declaration; the attribute is
    // namespaced and invisible to a plain lookup.
    assert_eq!(doc.attribute(c, "x"), None);
}

#[test]
fn empty_input_is_rejected() {
    assert!(Document::parse("").is_err());
}

#[test]
fn entity_reference_in_attribute_value() {
    let doc =
        Document::parse("<!DOCTYPE e [ <!ENTITY v 'wide'> ]><e a='&v; net'/>").unwrap();
    let root = doc.root_element().unwrap();
    assert_eq!(doc.attribute(root, "a"), Some("wide net"));
}

#[test]
fn redeclaring_xml_prefix_correctly_is_allowed() {
    let doc =
        Document::parse("<e xmlns:xml='http://www.w3.org/XML/1998/namespace'/>").unwrap();
    assert!(doc.root_element().is_some());
}
