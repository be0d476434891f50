//! Selector matching and the cascade.

use boxflow::css::{
    Color, Declaration, Rule, Selector, SimpleSelector, Stylesheet, Unit, Value,
};
use boxflow::html::parse;
use boxflow::style::{style_tree, PropertyMap};

fn decl(name: &str, value: Value) -> Declaration {
    Declaration { name: name.to_string(), value }
}

fn tag_selector(tag: &str) -> Selector {
    Selector::Simple(SimpleSelector { tag_name: Some(tag.to_string()), id: None, class: vec![] })
}

fn class_selector(tag: Option<&str>, class: &str) -> Selector {
    Selector::Simple(SimpleSelector {
        tag_name: tag.map(|t| t.to_string()),
        id: None,
        class: vec![class.to_string()],
    })
}

fn id_selector(id: &str) -> Selector {
    Selector::Simple(SimpleSelector { tag_name: None, id: Some(id.to_string()), class: vec![] })
}

#[test]
fn test_style() {
    let root = parse(
        "<div class=\"note\"><span>Hello</span><span>World</span><p>Hello Every One.</p></div>"
            .to_string(),
    )
    .unwrap();
    let css = Stylesheet {
        rules: vec![
            Rule {
                selectors: vec![tag_selector("h1"), tag_selector("h2"), tag_selector("h3")],
                declarations: vec![
                    decl("margin", Value::Keyword("auto".to_string())),
                    decl("color", Value::ColorValue(Color { r: 204, g: 0, b: 0, a: 255 })),
                ],
            },
            Rule {
                selectors: vec![class_selector(Some("div"), "note")],
                declarations: vec![
                    decl("margin-bottom", Value::Length(20, Unit::Px)),
                    decl("padding", Value::Length(10, Unit::Px)),
                ],
            },
            Rule {
                selectors: vec![id_selector("answer")],
                declarations: vec![decl("display", Value::Keyword("none".to_string()))],
            },
        ],
    };

    let styled_tree = style_tree(&root, &css);

    println!("{:?}", styled_tree)
}

#[test]
fn cascade_matches_tag_and_class() {
    let root = parse("<div class=\"note\"></div>".to_string()).unwrap();
    let css = Stylesheet {
        rules: vec![Rule {
            selectors: vec![class_selector(Some("div"), "note")],
            declarations: vec![decl("padding", Value::Length(10, Unit::Px))],
        }],
    };
    let styled = style_tree(&root, &css);
    assert_eq!(styled.value("padding"), Some(Value::Length(10, Unit::Px)));
    assert_eq!(styled.value("margin"), None);
}

#[test]
fn higher_specificity_wins() {
    let root = parse("<div class=\"note\"></div>".to_string()).unwrap();
    let css = Stylesheet {
        rules: vec![
            Rule {
                selectors: vec![class_selector(None, "note")],
                declarations: vec![decl("display", Value::Keyword("block".to_string()))],
            },
            Rule {
                selectors: vec![tag_selector("div")],
                declarations: vec![decl("display", Value::Keyword("inline".to_string()))],
            },
        ],
    };
    let styled = style_tree(&root, &css);
    // The class selector is more specific than the tag selector, so
    // its declaration wins even though it comes first.
    assert_eq!(styled.value("display"), Some(Value::Keyword("block".to_string())));
}

#[test]
fn equal_specificity_keeps_source_order() {
    let root = parse("<div></div>".to_string()).unwrap();
    let css = Stylesheet {
        rules: vec![
            Rule {
                selectors: vec![tag_selector("div")],
                declarations: vec![decl("display", Value::Keyword("block".to_string()))],
            },
            Rule {
                selectors: vec![tag_selector("div")],
                declarations: vec![decl("display", Value::Keyword("inline".to_string()))],
            },
        ],
    };
    let styled = style_tree(&root, &css);
    // Of two rules with equal specificity, the later one wins.
    assert_eq!(styled.value("display"), Some(Value::Keyword("inline".to_string())));
}

#[test]
fn unmatched_selectors_leave_no_style() {
    let root = parse("<p></p>".to_string()).unwrap();
    let css = Stylesheet {
        rules: vec![Rule {
            selectors: vec![id_selector("answer")],
            declarations: vec![decl("display", Value::Keyword("none".to_string()))],
        }],
    };
    let styled = style_tree(&root, &css);
    assert_eq!(styled.value("display"), None);
}

#[test]
fn property_map_insert_shadows_earlier_entries() {
    let mut map = PropertyMap::new();
    assert!(map.get("width").is_none());
    map.insert("width".to_string(), Value::Length(10, Unit::Px));
    map.insert("height".to_string(), Value::Length(5, Unit::Px));
    assert_eq!(map.get("width"), Some(&Value::Length(10, Unit::Px)));
    map.insert("width".to_string(), Value::Length(20, Unit::Px));
    assert_eq!(map.get("width"), Some(&Value::Length(20, Unit::Px)));
    assert_eq!(map.get("height"), Some(&Value::Length(5, Unit::Px)));
    let copy = map.clone();
    assert_eq!(copy.get("width"), Some(&Value::Length(20, Unit::Px)));
}

#[test]
fn specificity_counts_id_class_tag() {
    let sel = Selector::Simple(SimpleSelector {
        tag_name: Some("div".to_string()),
        id: Some("answer".to_string()),
        class: vec!["a".to_string(), "b".to_string()],
    });
    assert_eq!(sel.specificity(), (1, 2, 1));
    let bare = Selector::Simple(SimpleSelector { tag_name: None, id: None, class: vec![] });
    assert_eq!(bare.specificity(), (0, 0, 0));
}

#[test]
fn lookup_prefers_name_then_fallback_then_default() {
    let root = parse("<div></div>".to_string()).unwrap();
    let css = Stylesheet {
        rules: vec![Rule {
            selectors: vec![tag_selector("div")],
            declarations: vec![
                decl("margin", Value::Length(7, Unit::Px)),
                decl("margin-left", Value::Length(3, Unit::Px)),
            ],
        }],
    };
    let styled = style_tree(&root, &css);
    let default = Value::Length(0, Unit::Px);
    assert_eq!(styled.lookup("margin-left", "margin", &default), Value::Length(3, Unit::Px));
    assert_eq!(styled.lookup("margin-right", "margin", &default), Value::Length(7, Unit::Px));
    assert_eq!(styled.lookup("padding-left", "padding", &default), Value::Length(0, Unit::Px));
}
