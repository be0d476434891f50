//! The display list and the canvas rasterizer.

use boxflow::css::{Color, Unit, Value};
use boxflow::layout::{build_layout_tree, Rect};
use boxflow::paint::{build_display_list, paint, Canvas, DisplayCommand};
use boxflow::style::{PropertyMap, StyledNode};

fn styled(props: Vec<(&str, Value)>, children: Vec<StyledNode>) -> StyledNode {
    let mut map = PropertyMap::new();
    for (name, value) in props {
        map.insert(name.to_string(), value);
    }
    StyledNode { specified_values: map, children }
}

fn px(v: i64) -> Value {
    Value::Length(v, Unit::Px)
}

fn kw(v: &str) -> Value {
    Value::Keyword(v.to_string())
}

const RED: Color = Color { r: 255, g: 0, b: 0, a: 255 };
const BLUE: Color = Color { r: 0, g: 0, b: 255, a: 255 };
const WHITE: Color = Color { r: 255, g: 255, b: 255, a: 255 };

#[test]
fn display_list_paints_background_then_children() {
    let node = styled(
        vec![
            ("display", kw("block")),
            ("width", px(10)),
            ("height", px(4)),
            ("background", Value::ColorValue(RED)),
        ],
        vec![styled(
            vec![
                ("display", kw("block")),
                ("height", px(2)),
                ("background", Value::ColorValue(BLUE)),
            ],
            vec![],
        )],
    );
    let laid = build_layout_tree(&node)
        .unwrap()
        .layout(px(10), px(10))
        .unwrap()
        .calc_abs();
    let list = build_display_list(&laid);
    assert_eq!(list.len(), 2);
    assert_eq!(
        list[0],
        DisplayCommand::SolidColor(RED, Rect { x: 0, y: 0, width: 10, height: 4 })
    );
    assert_eq!(
        list[1],
        DisplayCommand::SolidColor(BLUE, Rect { x: 0, y: 0, width: 10, height: 2 })
    );
}

#[test]
fn border_strips_are_emitted() {
    let node = styled(
        vec![
            ("display", kw("block")),
            ("width", px(8)),
            ("height", px(6)),
            ("border-width", px(1)),
            ("border-color", Value::ColorValue(RED)),
        ],
        vec![],
    );
    let laid = build_layout_tree(&node)
        .unwrap()
        .layout(px(20), px(20))
        .unwrap()
        .calc_abs();
    let list = build_display_list(&laid);
    // Left, right, top, bottom.
    assert_eq!(list.len(), 4);
    assert_eq!(
        list[0],
        DisplayCommand::SolidColor(RED, Rect { x: 0, y: 0, width: 1, height: 8 })
    );
    assert_eq!(
        list[1],
        DisplayCommand::SolidColor(RED, Rect { x: 9, y: 0, width: 1, height: 8 })
    );
    assert_eq!(
        list[2],
        DisplayCommand::SolidColor(RED, Rect { x: 0, y: 0, width: 10, height: 1 })
    );
    assert_eq!(
        list[3],
        DisplayCommand::SolidColor(RED, Rect { x: 0, y: 7, width: 10, height: 1 })
    );
}

#[test]
fn canvas_starts_white() {
    let canvas = Canvas::new(3, 2);
    assert_eq!(canvas.pixels.len(), 6);
    assert!(canvas.pixels.iter().all(|p| *p == WHITE));
}

#[test]
fn paint_item_fills_and_clips() {
    let mut canvas = Canvas::new(4, 4);
    canvas.paint_item(&DisplayCommand::SolidColor(
        RED,
        Rect { x: 2, y: -1, width: 10, height: 3 },
    ));
    for y in 0..4usize {
        for x in 0..4usize {
            let expected = if x >= 2 && y < 2 { RED } else { WHITE };
            assert_eq!(canvas.pixels[y * 4 + x], expected, "pixel {},{}", x, y);
        }
    }
}

#[test]
fn paint_rasterizes_the_tree() {
    let node = styled(
        vec![
            ("display", kw("block")),
            ("width", px(2)),
            ("height", px(2)),
            ("background", Value::ColorValue(BLUE)),
        ],
        vec![],
    );
    let laid = build_layout_tree(&node)
        .unwrap()
        .layout(px(4), px(4))
        .unwrap()
        .calc_abs();
    let canvas = paint(&laid, Rect { x: 0, y: 0, width: 4, height: 4 });
    assert_eq!(canvas.width, 4);
    assert_eq!(canvas.height, 4);
    for y in 0..4usize {
        for x in 0..4usize {
            let expected = if x < 2 && y < 2 { BLUE } else { WHITE };
            assert_eq!(canvas.pixels[y * 4 + x], expected, "pixel {},{}", x, y);
        }
    }
}
