use wineventlog::record::Json;
use wineventlog::ser::{render_line, render_pretty};
use wineventlog::xml::parse_to_json;

fn line_of(xml: &str) -> String {
    let record = parse_to_json(xml).expect("markup should parse");
    render_line(&record)
}

#[test]
fn attrs_only_element_becomes_object() {
    assert_eq!(line_of(r#"<E a="1" b="2"/>"#), r#"{"@a":"1","@b":"2"}"#);
}

#[test]
fn text_leaf_discards_attributes() {
    assert_eq!(line_of(r#"<E a="1" b="2"> hello </E>"#), r#""hello""#);
}

#[test]
fn empty_element_collapses_to_empty_object() {
    assert_eq!(line_of("<E/>"), "{}");
    assert_eq!(line_of("<E>   </E>"), "{}");
}

#[test]
fn repeated_tag_children_become_array() {
    assert_eq!(line_of("<W><R><C>1</C><C>2</C></R></W>"), r#"{"C":["1","2"]}"#);
}

#[test]
fn single_tag_child_stays_bare() {
    assert_eq!(line_of("<W><R><C>x</C></R></W>"), r#"{"C":"x"}"#);
}

#[test]
fn array_grouping_keeps_document_order() {
    assert_eq!(
        line_of("<W><E><A>1</A><B>x</B><A>2</A></E></W>"),
        r#"{"A":["1","2"],"B":"x"}"#
    );
}

#[test]
fn wrapper_root_is_unwrapped() {
    // the record is the root's first element child; a root without
    // element children is the record itself
    assert_eq!(
        line_of(r#"<Event><System><Provider Name="X"/><Level>4</Level></System><EventData/></Event>"#),
        r#"{"Provider":{"@Name":"X"},"Level":"4"}"#
    );
    assert_eq!(line_of(r#"<Event a="1"/>"#), r#"{"@a":"1"}"#);
}

#[test]
fn nested_elements_become_nested_objects() {
    assert_eq!(
        line_of(r#"<W><Event><Provider Name="X"/><Level>4</Level></Event></W>"#),
        r#"{"Provider":{"@Name":"X"},"Level":"4"}"#
    );
}

#[test]
fn transcoding_twice_yields_equal_structure() {
    let xml = r#"<W><Event><Provider Name="X"/><Data>1</Data><Data>2</Data></Event></W>"#;
    let first = line_of(xml);
    let second = line_of(xml);
    assert_eq!(first, second);
    let v1: serde_json::Value = serde_json::from_str(&first).unwrap();
    let v2: serde_json::Value = serde_json::from_str(&second).unwrap();
    assert_eq!(v1, v2);
}

#[test]
fn malformed_markup_yields_nothing() {
    assert!(parse_to_json("<a><b></a>").is_none());
    assert!(parse_to_json("not markup at all").is_none());
}

#[test]
fn rendered_line_is_valid_json_without_line_breaks() {
    let line = line_of("<E>a&#10;b\"q</E>");
    assert!(!line.contains('\n'));
    let v: serde_json::Value = serde_json::from_str(&line).unwrap();
    assert_eq!(v, serde_json::Value::String("a\nb\"q".to_string()));
}

#[test]
fn string_escapes_match_json() {
    let j = Json::Text("q\"b\\n\nt\tu\u{1}".to_string());
    let line = render_line(&j);
    assert_eq!(line, "\"q\\\"b\\\\n\\nt\\tu\\u0001\"");
    let v: serde_json::Value = serde_json::from_str(&line).unwrap();
    assert_eq!(v, serde_json::Value::String("q\"b\\n\nt\tu\u{1}".to_string()));
}

#[test]
fn pretty_rendering_matches_reference_layout() {
    // field names here are already in sorted order, so the reference
    // serializer, which sorts object keys, lays the text out identically
    let record =
        parse_to_json(r#"<W><Event><Data>1</Data><Data>2</Data><Provider Name="X"/></Event></W>"#)
            .unwrap();
    let ours = render_pretty(&record);
    let reparsed: serde_json::Value = serde_json::from_str(&render_line(&record)).unwrap();
    assert_eq!(ours, serde_json::to_string_pretty(&reparsed).unwrap());
    assert_eq!(
        ours,
        "{\n  \"Data\": [\n    \"1\",\n    \"2\"\n  ],\n  \"Provider\": {\n    \"@Name\": \"X\"\n  }\n}"
    );
}

#[test]
fn pretty_rendering_of_leaves_and_empties() {
    let e = parse_to_json("<E/>").unwrap();
    assert_eq!(render_pretty(&e), "{}");
    let t = Json::Text("x".to_string());
    assert_eq!(render_pretty(&t), "\"x\"");
}
