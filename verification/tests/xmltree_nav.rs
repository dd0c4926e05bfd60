//! Tests of the XML tree navigation: parsing, child lookup, path descent,
//! typed text, and attribute-keyed collection.

use zisraw::xml::parse_xml;
use zisraw::Error;

const DOC: &str = "<root>\
<a><b><c>42</c></b></a>\
<list>\
<item key=\"first\"><Value>1.5</Value></item>\
<item key=\"second\"><Value>2.5</Value></item>\
<other/>\
</list>\
<dup/><dup><c>7</c></dup>\
</root>";

#[test]
fn parse_and_descend() {
    let src = DOC.to_owned();
    let root = parse_xml(&src).unwrap();
    assert_eq!(root.name, "root");
    let c = root.drill_down(&["a", "b", "c"]).unwrap();
    assert_eq!(c.get_text().unwrap(), "42");
    assert_eq!(c.text_u64().unwrap(), 42);
    assert_eq!(c.text_i32().unwrap(), 42);
    assert_eq!(c.text_usize().unwrap(), 42);
    let b = root.drill_down(&["a", "b"]).unwrap();
    assert_eq!(b.child_into_u64("c").unwrap(), 42);
    assert!(matches!(
        root.drill_down(&["a", "missing"]),
        Err(Error::Format(_))
    ));
}

#[test]
fn get_child_takes_the_first_match() {
    let src = DOC.to_owned();
    let root = parse_xml(&src).unwrap();
    // Two elements are named dup; the first (empty) one wins.
    let d = root.get_child("dup").unwrap();
    assert!(d.children.is_empty());
    assert!(root.get_child("nothing").is_none());
}

#[test]
fn typed_text_reports_the_right_error_kind() {
    let src = "<r><n>4x</n><empty/></r>".to_owned();
    let root = parse_xml(&src).unwrap();
    // Text that does not decode is a parse error.
    assert!(matches!(
        root.child_into_u64("n"),
        Err(Error::Parse(_))
    ));
    // A missing child or missing text is a format error.
    assert!(matches!(
        root.child_into_u64("missing"),
        Err(Error::Format(_))
    ));
    assert!(matches!(
        root.child_into_u64("empty"),
        Err(Error::Format(_))
    ));
}

#[test]
fn collect_attributed_values_keys_by_the_attribute() {
    let src = DOC.to_owned();
    let root = parse_xml(&src).unwrap();
    let list = root.get_child("list").unwrap();
    let pairs = list.collect_attributed_values("item", "key").unwrap();
    assert_eq!(pairs.len(), 2);
    assert_eq!(pairs[0], ("first".to_owned(), "1.5".to_owned()));
    assert_eq!(pairs[1], ("second".to_owned(), "2.5".to_owned()));
    // No matching child at all: the collection is empty, which fails.
    assert!(matches!(
        list.collect_attributed_values("absent", "key"),
        Err(Error::Format(_))
    ));
}

#[test]
fn malformed_xml_is_a_format_error() {
    let src = "<r><unclosed></r>".to_owned();
    assert!(matches!(parse_xml(&src), Err(Error::Format(_))));
}

#[test]
fn attributes_are_reachable_by_key() {
    let src = "<r><e one=\"1\" two=\"2\"/></r>".to_owned();
    let root = parse_xml(&src).unwrap();
    let e = root.get_child("e").unwrap();
    assert_eq!(e.attr_get("one").unwrap(), "1");
    assert_eq!(e.attr_get("two").unwrap(), "2");
    assert!(e.attr_get("three").is_none());
}
