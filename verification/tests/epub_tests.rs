use cauldron::{Document, Metadata, Chapter, ParseError, TextPos};

#[test]
fn metadata_collects_known_fields() {
    let xml = "<package><metadata><title>T</title><creator>C</creator>\
               <language>en</language><identifier>i1</identifier>\
               <publisher>P</publisher><description>D</description>\
               <date>2020</date><other>x</other></metadata></package>";
    let doc = Document::parse(xml).unwrap();
    let package = doc.root_element().unwrap();
    let metadata_node = doc.children(package)[0];
    let m = Metadata::new(&doc, metadata_node);
    assert_eq!(m.title.as_deref(), Some("T"));
    assert_eq!(m.creator.as_deref(), Some("C"));
    assert_eq!(m.language.as_deref(), Some("en"));
    assert_eq!(m.identifier.as_deref(), Some("i1"));
    assert_eq!(m.publisher.as_deref(), Some("P"));
    assert_eq!(m.description.as_deref(), Some("D"));
    assert_eq!(m.date.as_deref(), Some("2020"));
}

#[test]
fn metadata_missing_fields_stay_empty() {
    let xml = "<package><metadata><title>Only</title></metadata></package>";
    let doc = Document::parse(xml).unwrap();
    let package = doc.root_element().unwrap();
    let metadata_node = doc.children(package)[0];
    let m = Metadata::new(&doc, metadata_node);
    assert_eq!(m.title.as_deref(), Some("Only"));
    assert_eq!(m.creator, None);
    assert_eq!(m.language, None);
}

#[test]
fn fresh_chapter_is_unrendered() {
    let c = Chapter::new("ch1.xhtml");
    assert_eq!(c.relative_path, "ch1.xhtml");
    assert_eq!(c.text, "");
    assert!(c.ids.is_empty());
    assert!(!c.is_parsed);
}

#[test]
fn error_messages_name_the_failure() {
    let e = Document::parse("<a><b></a>").unwrap_err();
    assert_eq!(e.message(), "expected 'b' tag, not 'a' at 1:7");

    let e = Document::parse("<?xml version=\"1.0\"?>").unwrap_err();
    assert_eq!(e.message(), "the document does not have a root node");

    let e = Document::parse("<root>").unwrap_err();
    assert_eq!(e.message(), "the root node was opened but never closed");

    let e = Document::parse("<e xmlns:n='a' xmlns:n='b'/>").unwrap_err();
    assert_eq!(e.message(), "namespace 'n' at 1:16 is already defined");
}

#[test]
fn crate_errors_wrap_parse_failures() {
    let e = Document::parse("<root>").unwrap_err();
    match cauldron::error::from_parse_error(&e) {
        cauldron::error::Error::ParseError(m) => {
            assert_eq!(m, "Invalid Epub Format: the root node was opened but never closed");
        }
        other => panic!("wrong error: {:?}", other),
    }
    match cauldron::error::to_parse_error() {
        cauldron::error::Error::ParseError(m) => assert_eq!(m, "Invalid Epub Format"),
        other => panic!("wrong error: {:?}", other),
    }
    match cauldron::error::to_fnf_error("a/b.epub".to_string()) {
        cauldron::error::Error::FileNotFound(p) => assert_eq!(p, "a/b.epub"),
        other => panic!("wrong error: {:?}", other),
    }
}

#[test]
fn error_positions_are_one_based() {
    let e = Document::parse("<a>\n  <b></a>").unwrap_err();
    assert_eq!(e.pos(), TextPos::new(2, 6));
    assert!(matches!(e, ParseError::UnexpectedCloseTag(_, _, _)));
}
