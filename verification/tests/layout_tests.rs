//! The box-layout engine: width and margin resolution, stacking,
//! wrapping, the position resolver, and the error policy.

use boxflow::css::{
    Color, Declaration, Rule, Selector, SimpleSelector, Stylesheet, Unit, Value,
};
use boxflow::html::parse;
use boxflow::layout::{build_layout_tree, BoxType, LayoutBox, LayoutError};
use boxflow::style::{style_tree, PropertyMap, StyledNode};

fn decl(name: &str, value: Value) -> Declaration {
    Declaration { name: name.to_string(), value }
}

fn px(v: i64) -> Value {
    Value::Length(v, Unit::Px)
}

fn kw(v: &str) -> Value {
    Value::Keyword(v.to_string())
}

/// A styled node built directly from property pairs.
fn styled(props: Vec<(&str, Value)>, children: Vec<StyledNode>) -> StyledNode {
    let mut map = PropertyMap::new();
    for (name, value) in props {
        map.insert(name.to_string(), value);
    }
    StyledNode { specified_values: map, children }
}

fn lay(node: &StyledNode, container: Value, constraint: Value) -> LayoutBox {
    build_layout_tree(node).unwrap().layout(container, constraint).unwrap()
}

#[test]
fn test_layout() {
    let root = parse("<div class=\"note\"><div class=\"note\"></div></div>".to_string()).unwrap();
    let css = Stylesheet {
        rules: vec![Rule {
            selectors: vec![Selector::Simple(SimpleSelector {
                tag_name: Some("div".to_string()),
                id: None,
                class: vec!["note".to_string()],
            })],
            declarations: vec![
                decl("display", kw("block")),
                decl("margin", px(20)),
                decl("padding", px(10)),
            ],
        }],
    };

    let styled_tree = style_tree(&root, &css);

    let layout_tree = build_layout_tree(&styled_tree).unwrap();

    let layout_tree = layout_tree.layout(px(200), px(200)).unwrap();

    println!("{:#?}", layout_tree);

    assert_eq!(layout_tree.dimensions.margin_box().width, 200);
    assert_eq!(layout_tree.dimensions.padding_box().width, 160);
    assert_eq!(layout_tree.dimensions.inner.width, 140);

    assert_eq!(layout_tree.children[0].dimensions.margin_box().width, 140);
    assert_eq!(layout_tree.children[0].dimensions.padding_box().width, 100);
    assert_eq!(layout_tree.children[0].dimensions.inner.width, 80);

    assert_eq!(layout_tree.children[0].dimensions.margin_box().height, 60);
    assert_eq!(layout_tree.dimensions.margin_box().height, 120);
}

#[test]
fn width_nesting_after_layout() {
    let node = styled(
        vec![("display", kw("block")), ("margin", px(20)), ("padding", px(10)), ("border-width", px(2))],
        vec![styled(vec![("display", kw("block")), ("padding", px(5))], vec![])],
    );
    let laid = lay(&node, px(300), px(300));
    let d = &laid.dimensions;
    let content = d.inner.width;
    let padding = content + d.padding.left + d.padding.right;
    let border = padding + d.border.left + d.border.right;
    let margin = border + d.margin.left + d.margin.right;
    assert!(content >= 0);
    assert!(padding >= content);
    assert!(border >= padding);
    assert!(margin >= border);
}

#[test]
fn auto_height_is_sum_of_children() {
    let node = styled(
        vec![("display", kw("block")), ("width", px(100))],
        vec![
            styled(vec![("display", kw("block")), ("height", px(30)), ("margin", px(5))], vec![]),
            styled(vec![("display", kw("block")), ("height", px(20))], vec![]),
        ],
    );
    let laid = lay(&node, px(200), px(200));
    // 30 + 5 + 5 margins, then 20.
    assert_eq!(laid.dimensions.inner.height, 60);
    assert_eq!(laid.children[0].dimensions.box_offset.top, 0);
    assert_eq!(laid.children[1].dimensions.box_offset.top, 40);
}

#[test]
fn layout_is_idempotent() {
    let node = styled(
        vec![("display", kw("block")), ("margin", px(20)), ("padding", px(10))],
        vec![styled(vec![("display", kw("block")), ("margin", px(20)), ("padding", px(10))], vec![])],
    );
    let laid = lay(&node, px(200), px(200));
    let first = laid.dimensions;
    let child_first = laid.children[0].dimensions;
    let again = laid.layout(px(200), px(200)).unwrap();
    assert_eq!(again.dimensions, first);
    assert_eq!(again.children[0].dimensions, child_first);
}

#[test]
fn overconstrained_margin_right_absorbs_underflow() {
    let node = styled(
        vec![
            ("display", kw("block")),
            ("width", px(60)),
            ("margin-left", px(30)),
            ("margin-right", px(30)),
        ],
        vec![],
    );
    let laid = lay(&node, px(100), px(100));
    let d = &laid.dimensions;
    assert_eq!(d.inner.width, 60);
    assert_eq!(d.margin.left, 30);
    // Declared total is 120 against a 100px container: the right
    // margin absorbs the signed underflow of -20.
    assert_eq!(d.margin.right, 10);
}

#[test]
fn auto_margins_center_the_box() {
    let node = styled(
        vec![
            ("display", kw("block")),
            ("width", px(100)),
            ("margin-left", kw("auto")),
            ("margin-right", kw("auto")),
        ],
        vec![],
    );
    let laid = lay(&node, px(200), px(200));
    let d = &laid.dimensions;
    assert_eq!(d.inner.width, 100);
    assert_eq!(d.margin.left, 50);
    assert_eq!(d.margin.right, 50);
}

#[test]
fn anonymous_boxes_wrap_inline_runs() {
    let node = styled(
        vec![("display", kw("block"))],
        vec![
            styled(vec![], vec![]),  // display defaults to inline
            styled(vec![("display", kw("block"))], vec![]),
            styled(vec![], vec![]),
        ],
    );
    let tree = build_layout_tree(&node).unwrap();
    assert_eq!(tree.children.len(), 3);
    assert!(matches!(tree.children[0].box_type, BoxType::AnonymousBlock));
    assert_eq!(tree.children[0].children.len(), 1);
    assert!(matches!(tree.children[0].children[0].box_type, BoxType::InlineNode(_)));
    assert!(matches!(tree.children[1].box_type, BoxType::BlockNode(_)));
    assert!(matches!(tree.children[2].box_type, BoxType::AnonymousBlock));
    assert_eq!(tree.children[2].children.len(), 1);
}

#[test]
fn consecutive_inline_children_share_one_anonymous_box() {
    let node = styled(
        vec![("display", kw("block"))],
        vec![styled(vec![], vec![]), styled(vec![], vec![]), styled(
            vec![("display", kw("block"))],
            vec![],
        )],
    );
    let tree = build_layout_tree(&node).unwrap();
    assert_eq!(tree.children.len(), 2);
    assert!(matches!(tree.children[0].box_type, BoxType::AnonymousBlock));
    assert_eq!(tree.children[0].children.len(), 2);
}

#[test]
fn display_none_prunes_the_subtree() {
    let node = styled(
        vec![("display", kw("block"))],
        vec![
            styled(vec![("display", kw("none"))], vec![styled(vec![], vec![])]),
            styled(vec![("display", kw("block"))], vec![]),
        ],
    );
    let tree = build_layout_tree(&node).unwrap();
    assert_eq!(tree.children.len(), 1);
}

#[test]
fn display_none_root_is_invalid() {
    let node = styled(vec![("display", kw("none"))], vec![]);
    assert!(matches!(build_layout_tree(&node), Err(LayoutError::InvalidRoot)));
}

#[test]
fn anonymous_block_has_no_style_node() {
    let node = styled(vec![("display", kw("block"))], vec![styled(vec![], vec![])]);
    let tree = build_layout_tree(&node).unwrap();
    assert!(matches!(tree.children[0].is_width_auto(), Err(LayoutError::NoStyleNode)));
    assert_eq!(tree.is_width_auto(), Ok(true));
}

#[test]
fn malformed_length_is_reported() {
    let node = styled(
        vec![("display", kw("block")), ("width", Value::ColorValue(Color { r: 1, g: 2, b: 3, a: 4 }))],
        vec![],
    );
    let tree = build_layout_tree(&node).unwrap();
    assert_eq!(tree.layout(px(100), px(100)).err(), Some(LayoutError::MalformedLength));

    assert_eq!(kw("auto").to_px(), Err(LayoutError::MalformedLength));
    assert_eq!(px(7).to_px(), Ok(7));
    assert!(kw("auto").is_auto());
    assert!(!kw("auto").is_specific_length());
    assert!(px(7).is_specific_length());
}

#[test]
fn line_wrapping_partitions_inline_blocks() {
    // Three 60px inline-blocks against a 100px line: one per line.
    let ib = |w: i64, h: i64| {
        styled(
            vec![("display", kw("inline-block")), ("width", px(w)), ("height", px(h))],
            vec![],
        )
    };
    let node = styled(
        vec![("display", kw("block")), ("width", px(100))],
        vec![ib(60, 10), ib(60, 12), ib(60, 14)],
    );
    let laid = lay(&node, px(100), px(100));
    let anon = &laid.children[0];
    assert!(matches!(anon.box_type, BoxType::AnonymousBlock));
    assert_eq!(anon.children.len(), 3);
    assert_eq!(anon.children[0].dimensions.box_offset.top, 0);
    assert_eq!(anon.children[1].dimensions.box_offset.top, 10);
    assert_eq!(anon.children[2].dimensions.box_offset.top, 22);
    assert_eq!(anon.dimensions.inner.height, 36);
    assert_eq!(anon.dimensions.inner.width, 60);
}

#[test]
fn line_keeps_children_that_fit_together() {
    let ib = |w: i64, h: i64| {
        styled(
            vec![("display", kw("inline-block")), ("width", px(w)), ("height", px(h))],
            vec![],
        )
    };
    let node = styled(
        vec![("display", kw("block")), ("width", px(100))],
        vec![ib(40, 10), ib(40, 12), ib(40, 14)],
    );
    let laid = lay(&node, px(100), px(100));
    let anon = &laid.children[0];
    // The first two share a line; the third wraps.
    assert_eq!(anon.children[0].dimensions.box_offset.left, 0);
    assert_eq!(anon.children[0].dimensions.box_offset.top, 0);
    assert_eq!(anon.children[1].dimensions.box_offset.left, 40);
    assert_eq!(anon.children[1].dimensions.box_offset.top, 0);
    assert_eq!(anon.children[2].dimensions.box_offset.left, 0);
    assert_eq!(anon.children[2].dimensions.box_offset.top, 12);
    assert_eq!(anon.dimensions.inner.height, 26);
    assert_eq!(anon.dimensions.inner.width, 80);
}

#[test]
fn inline_boxes_take_their_measured_size() {
    let node = styled(
        vec![("display", kw("block")), ("width", px(100))],
        vec![styled(
            vec![("measure-width", px(30)), ("measure-height", px(8))],
            vec![],
        )],
    );
    let laid = lay(&node, px(100), px(100));
    let inline = &laid.children[0].children[0];
    assert_eq!(inline.dimensions.inner.width, 30);
    assert_eq!(inline.dimensions.inner.height, 8);
}

#[test]
fn shrink_to_fit_measures_then_fills() {
    // The outer box has no width and no known container width, so it
    // measures its children, takes the widest margin box, and the
    // auto child then stretches to fill it.
    let node = styled(
        vec![("display", kw("block"))],
        vec![
            styled(vec![("display", kw("block")), ("width", px(70))], vec![]),
            styled(vec![("display", kw("block"))], vec![]),
        ],
    );
    let laid = lay(&node, kw("auto"), px(500));
    assert_eq!(laid.dimensions.inner.width, 70);
    assert_eq!(laid.children[1].dimensions.inner.width, 70);
}

#[test]
fn absolute_positions_accumulate() {
    let node = styled(
        vec![("display", kw("block")), ("margin", px(20)), ("padding", px(10))],
        vec![styled(
            vec![("display", kw("block")), ("margin", px(20)), ("padding", px(10))],
            vec![],
        )],
    );
    let laid = lay(&node, px(200), px(200));
    let resolved = laid.calc_abs();
    assert_eq!(resolved.dimensions.box_abs.x, 30);
    assert_eq!(resolved.dimensions.box_abs.y, 30);
    assert_eq!(resolved.children[0].dimensions.box_abs.x, 60);
    assert_eq!(resolved.children[0].dimensions.box_abs.y, 60);
}

#[test]
fn get_left_and_top_combine_offset_and_inset() {
    let node = styled(
        vec![("display", kw("block")), ("margin", px(20)), ("padding", px(10))],
        vec![],
    );
    let laid = lay(&node, px(200), px(200));
    assert_eq!(laid.dimensions.get_left(), 30);
    assert_eq!(laid.dimensions.get_top(), 30);
}
