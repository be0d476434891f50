//! Document tree construction and markup parsing.

use boxflow::dom::{elem, text, AttrMap, Node, NodeType};
use boxflow::html::{parse, ParseError};

#[test]
fn dom_works() {
    let _ = elem(
        "span".to_string(),
        AttrMap::new(),
        vec![text("Hello World".to_string())],
    );
}

#[test]
fn html_works() {
    let node = parse(
        "<div><span>Hello</span><span>World</span><p>Hello Every One.</p></div>".to_string(),
    )
    .unwrap();
    println!("{:?}", node)
}

fn tag_of(node: &Node) -> String {
    match &node.node_type {
        NodeType::Element(e) => e.tag_name.clone(),
        NodeType::Text(t) => format!("#text:{}", t),
    }
}

#[test]
fn parses_nested_elements_and_text() {
    let node = parse("<div><span>Hello</span>World</div>".to_string()).unwrap();
    assert_eq!(tag_of(&node), "div");
    assert_eq!(node.children.len(), 2);
    assert_eq!(tag_of(&node.children[0]), "span");
    assert_eq!(tag_of(&node.children[0].children[0]), "#text:Hello");
    assert_eq!(tag_of(&node.children[1]), "#text:World");
}

#[test]
fn multiple_roots_get_an_html_wrapper() {
    let node = parse("<a></a><b></b>".to_string()).unwrap();
    assert_eq!(tag_of(&node), "html");
    assert_eq!(node.children.len(), 2);
}

#[test]
fn attributes_are_recorded() {
    let node = parse("<div id=\"x\" class=\"a b\"></div>".to_string()).unwrap();
    match &node.node_type {
        NodeType::Element(e) => {
            assert_eq!(e.id().unwrap(), "x");
            let classes = e.classes();
            assert_eq!(classes, vec!["a".to_string(), "b".to_string()]);
        },
        _ => panic!("expected an element"),
    }
}

#[test]
fn mismatched_closing_tag_is_an_error() {
    assert_eq!(parse("<a></b>".to_string()).err(), Some(ParseError::MismatchedTag));
}

#[test]
fn attribute_without_value_is_an_error() {
    assert_eq!(parse("<div x></div>".to_string()).err(), Some(ParseError::UnexpectedToken));
}

#[test]
fn unquoted_attribute_value_is_an_error() {
    assert_eq!(parse("<div x=bar></div>".to_string()).err(), Some(ParseError::MismatchedQuote));
}

#[test]
fn unterminated_attribute_value_is_an_error() {
    assert_eq!(parse("<div x=\"bar></div>".to_string()).err(), Some(ParseError::UnexpectedEnd));
}

#[test]
fn unterminated_element_is_an_error() {
    assert_eq!(parse("<div>".to_string()).err(), Some(ParseError::UnexpectedToken));
}
