//! Painting: turn a laid-out box tree into a display list of solid
//! rectangles, and rasterize the list into a pixel canvas.  Writing
//! the canvas to an image file is left to the caller.

use vstd::prelude::*;
use crate::css::{Color, Value, ValueView};
use crate::layout::model::{
    abs_content_rect, border_rect, expand_fits, in_px_range, padding_rect, BoxView, RectV,
};
use crate::layout::{BoxType, LayoutBox, Rect};

verus! {

broadcast use {
    vstd::std_specs::vec::axiom_vec_index_decreases,
    vstd::std_specs::vec::axiom_vec_decreases_to_view,
};

/// One painting command: fill a rectangle with a solid color.
#[derive(Debug, PartialEq)]
pub enum DisplayCommand {
    SolidColor(Color, Rect),
}

pub ghost enum DisplayCommandView {
    SolidColor(Color, RectV),
}

impl View for DisplayCommand {
    type V = DisplayCommandView;

    open spec fn view(&self) -> DisplayCommandView {
        match self {
            DisplayCommand::SolidColor(c, r) => DisplayCommandView::SolidColor(*c, r@),
        }
    }
}

/// The painting commands of a whole tree, in paint order.
pub type DisplayList = Vec<DisplayCommand>;

/// The views of a display list, in order.
pub open spec fn dl_views(s: Seq<DisplayCommand>) -> Seq<DisplayCommandView> {
    Seq::new(s.len(), |i: int| s[i]@)
}

/// The color declared for the property, if one is.
pub open spec fn spec_color(b: BoxView, name: Seq<char>) -> Option<Color> {
    if b.box_type.has_style() && b.box_type.props().contains_key(name) {
        match b.box_type.props()[name] {
            ValueView::ColorValue(c) => Some(c),
            _ => None,
        }
    } else {
        None
    }
}

/// The command painting a box's background, when it has one.
pub open spec fn spec_background(b: BoxView) -> Seq<DisplayCommandView> {
    match spec_color(b, "background"@) {
        Some(c) => seq![DisplayCommandView::SolidColor(c, border_rect(b.dimensions))],
        None => Seq::empty(),
    }
}

/// The four border strips of a box, when a border color is declared:
/// left, right, top, bottom.
pub open spec fn spec_borders(b: BoxView) -> Seq<DisplayCommandView> {
    match spec_color(b, "border-color"@) {
        Some(c) => {
            let bb = border_rect(b.dimensions);
            let d = b.dimensions;
            seq![
                DisplayCommandView::SolidColor(
                    c,
                    RectV { x: bb.x, y: bb.y, width: d.border.left, height: bb.height },
                ),
                DisplayCommandView::SolidColor(
                    c,
                    RectV {
                        x: bb.x + bb.width - d.border.right,
                        y: bb.y,
                        width: d.border.right,
                        height: bb.height,
                    },
                ),
                DisplayCommandView::SolidColor(
                    c,
                    RectV { x: bb.x, y: bb.y, width: bb.width, height: d.border.top },
                ),
                DisplayCommandView::SolidColor(
                    c,
                    RectV {
                        x: bb.x,
                        y: bb.y + bb.height - d.border.bottom,
                        width: bb.width,
                        height: d.border.bottom,
                    },
                ),
            ]
        },
        None => Seq::empty(),
    }
}

/// The commands painting a subtree contributes: the box's background,
/// its borders, then its children in order.
pub open spec fn spec_render(b: BoxView) -> Seq<DisplayCommandView>
    decreases b, 1int,
{
    spec_background(b) + spec_borders(b) + spec_render_seq(b.children)
}

pub open spec fn spec_render_seq(cs: Seq<BoxView>) -> Seq<DisplayCommandView>
    decreases cs, 0int,
{
    if cs.len() == 0 {
        Seq::empty()
    } else {
        spec_render_seq(cs.drop_last()) + spec_render(cs.last())
    }
}

/// The machine can form every coordinate of the box's own commands.
pub open spec fn paint_fits(b: BoxView) -> bool {
    let bb = border_rect(b.dimensions);
    let d = b.dimensions;
    &&& expand_fits(abs_content_rect(d), d.padding)
    &&& expand_fits(padding_rect(d), d.border)
    &&& in_px_range(bb.x + bb.width)
    &&& in_px_range(bb.x + bb.width - d.border.right)
    &&& in_px_range(bb.y + bb.height)
    &&& in_px_range(bb.y + bb.height - d.border.bottom)
}

pub open spec fn paint_fits_tree(b: BoxView) -> bool
    decreases b, 1int,
{
    paint_fits(b) && paint_fits_seq(b.children)
}

pub open spec fn paint_fits_seq(cs: Seq<BoxView>) -> bool
    decreases cs, 0int,
{
    cs.len() == 0 || (paint_fits_seq(cs.drop_last()) && paint_fits_tree(cs.last()))
}

/// Fitting is inherited position by position.
proof fn lemma_paint_fits_elem(cs: Seq<BoxView>, i: int)
    requires
        paint_fits_seq(cs),
        0 <= i < cs.len(),
    ensures
        paint_fits_tree(cs[i]),
    decreases cs,
{
    if i == cs.len() - 1 {
        assert(cs.last() == cs[i]);
    } else {
        assert(cs.drop_last()[i] == cs[i]);
        lemma_paint_fits_elem(cs.drop_last(), i);
    }
}

/// Return the specified color for CSS property `name`, or `None` if
/// no color was specified.
fn get_color(layout_box: &LayoutBox, name: &str) -> (r: Option<Color>)
    ensures
        r == spec_color(layout_box@, name@),
{
    match &layout_box.box_type {
        BoxType::BlockNode(style) => match style.get(name) {
            Some(Value::ColorValue(c)) => Some(*c),
            _ => None,
        },
        BoxType::InlineBlockNode(style) => match style.get(name) {
            Some(Value::ColorValue(c)) => Some(*c),
            _ => None,
        },
        BoxType::InlineNode(style) => match style.get(name) {
            Some(Value::ColorValue(c)) => Some(*c),
            _ => None,
        },
        BoxType::AnonymousBlock => None,
    }
}

/// Paint the box's background behind everything else of it.
fn render_background(list: &mut DisplayList, layout_box: &LayoutBox)
    requires
        paint_fits(layout_box@),
    ensures
        dl_views(final(list)@) =~= dl_views(old(list)@) + spec_background(layout_box@),
{
    let ghost pre = list@;
    match get_color(layout_box, "background") {
        Some(color) => {
            let rect = layout_box.dimensions.border_box();
            list.push(DisplayCommand::SolidColor(color, rect));
            proof {
                assert(list@.drop_last() =~= pre);
            }
        },
        None => {
        },
    }
}

/// Paint the box's four border strips, when it has a border color.
fn render_borders(list: &mut DisplayList, layout_box: &LayoutBox)
    requires
        paint_fits(layout_box@),
    ensures
        dl_views(final(list)@) =~= dl_views(old(list)@) + spec_borders(layout_box@),
{
    let ghost pre0 = list@;
    let color = match get_color(layout_box, "border-color") {
        Some(color) => color,
        None => {
            // Bail out if no border color is specified.
            return ;
        },
    };
    let d = &layout_box.dimensions;
    let border_box = d.border_box();

    // Left border
    list.push(
        DisplayCommand::SolidColor(
            color,
            Rect { x: border_box.x, y: border_box.y, width: d.border.left, height: border_box.height },
        ),
    );
    // Right border
    list.push(
        DisplayCommand::SolidColor(
            color,
            Rect {
                x: border_box.x + border_box.width - d.border.right,
                y: border_box.y,
                width: d.border.right,
                height: border_box.height,
            },
        ),
    );
    // Top border
    list.push(
        DisplayCommand::SolidColor(
            color,
            Rect { x: border_box.x, y: border_box.y, width: border_box.width, height: d.border.top },
        ),
    );
    // Bottom border
    list.push(
        DisplayCommand::SolidColor(
            color,
            Rect {
                x: border_box.x,
                y: border_box.y + border_box.height - d.border.bottom,
                width: border_box.width,
                height: d.border.bottom,
            },
        ),
    );
    proof {
        assert(dl_views(list@) =~= dl_views(pre0) + spec_borders(layout_box@));
    }
}

/// Paint a box and, after it, its subtree.
#[verifier::loop_isolation(false)]
fn render_layout_box(list: &mut DisplayList, layout_box: &LayoutBox)
    requires
        paint_fits_tree(layout_box@),
    ensures
        dl_views(final(list)@) =~= dl_views(old(list)@) + spec_render(layout_box@),
    decreases layout_box@,
{
    render_background(list, layout_box);
    render_borders(list, layout_box);
    let ghost b0 = layout_box@;
    let ghost cs = b0.children;
    proof {
        crate::layout::model::lemma_box_views(layout_box.children@);
        assert(cs.take(0) =~= Seq::<BoxView>::empty());
        assert(dl_views(list@) =~= dl_views(old(list)@) + spec_background(b0) + spec_borders(b0));
    }
    let n = layout_box.children.len();
    let mut i: usize = 0;
    while i < n
        invariant
            i <= n,
            n == layout_box.children@.len(),
            dl_views(list@) =~= dl_views(old(list)@) + spec_background(b0) + spec_borders(b0)
                + spec_render_seq(cs.take(i as int)),
        decreases n - i,
    {
        let child = &layout_box.children[i];
        proof {
            assert(child@ == cs[i as int]);
            lemma_paint_fits_elem(cs, i as int);
            assert(cs.take(i as int + 1).drop_last() =~= cs.take(i as int));
            assert(cs.take(i as int + 1).last() == cs[i as int]);
        }
        render_layout_box(list, child);
        i += 1;
    }
    proof {
        assert(cs.take(n as int) =~= cs);
        assert(dl_views(list@) =~= dl_views(old(list)@) + spec_render(b0));
    }
}

/// Build the display list of a laid-out tree.
pub fn build_display_list(layout_root: &LayoutBox) -> (r: DisplayList)
    requires
        paint_fits_tree(layout_root@),
    ensures
        dl_views(r@) =~= spec_render(layout_root@),
{
    let mut list: Vec<DisplayCommand> = Vec::new();
    proof {
        assert(dl_views(list@) =~= Seq::<DisplayCommandView>::empty());
    }
    render_layout_box(&mut list, layout_root);
    list
}

/// A pixel canvas: `width * height` colors in row-major order.
#[derive(Debug)]
pub struct Canvas {
    pub pixels: Vec<Color>,
    pub width: usize,
    pub height: usize,
}

impl Canvas {
    /// The buffer matches the stated size, and the size fits the
    /// coordinate arithmetic.
    pub open spec fn wf(&self) -> bool {
        &&& self.pixels@.len() == self.width * self.height
        &&& self.width <= 0xffff
        &&& self.height <= 0xffff
    }

    /// A blank white canvas.
    #[verifier::loop_isolation(false)]
    pub fn new(width: usize, height: usize) -> (r: Canvas)
        requires
            width <= 0xffff,
            height <= 0xffff,
        ensures
            r.wf(),
            r.width == width,
            r.height == height,
            forall|i: int|
                0 <= i < r.pixels@.len() ==> r.pixels@[i] == (Color {
                    r: 255,
                    g: 255,
                    b: 255,
                    a: 255,
                }),
    {
        let white = Color { r: 255, g: 255, b: 255, a: 255 };
        proof {
            assert((width as int) * (height as int) <= 0xffff * 0xffff)
                by (nonlinear_arith)
                requires
                    0 <= width as int <= 0xffff,
                    0 <= height as int <= 0xffff,
            ;
        }
        let total: usize = width * height;
        let mut pixels: Vec<Color> = Vec::new();
        let mut i: usize = 0;
        while i < total
            invariant
                i <= total,
                pixels@.len() == i,
                forall|j: int|
                    0 <= j < i ==> pixels@[j] == (Color { r: 255, g: 255, b: 255, a: 255 }),
            decreases total - i,
        {
            pixels.push(white);
            i += 1;
        }
        Canvas { pixels, width, height }
    }

    /// Fill the command's rectangle, clipped to the canvas: every
    /// pixel inside the clip takes the command's color, every other
    /// pixel keeps its value.
    #[verifier::loop_isolation(false)]
    #[verifier::rlimit(60)]
    pub fn paint_item(&mut self, item: &DisplayCommand)
        requires
            old(self).wf(),
            item@ matches DisplayCommandView::SolidColor(_, rect) ==> in_px_range(
                rect.x + rect.width,
            ) && in_px_range(rect.y + rect.height),
        ensures
            final(self).wf(),
            final(self).width == old(self).width,
            final(self).height == old(self).height,
            item@ matches DisplayCommandView::SolidColor(color, rect) ==> forall|yy: int, xx: int|
                0 <= yy < old(self).height && 0 <= xx < old(self).width
                    ==> #[trigger] final(self).pixels@[yy * old(self).width + xx] == (if clampi(
                    rect.x,
                    old(self).width as int,
                ) <= xx < clampi(rect.x + rect.width, old(self).width as int) && clampi(
                    rect.y,
                    old(self).height as int,
                ) <= yy < clampi(rect.y + rect.height, old(self).height as int) {
                    color
                } else {
                    old(self).pixels@[yy * old(self).width + xx]
                }),
    {
        let DisplayCommand::SolidColor(color, rect) = item;
        proof {
            assert(item@ == DisplayCommandView::SolidColor(*color, rect@));
        }
        // Clip the rectangle to the canvas boundaries.
        let x0 = clamp_px(rect.x, self.width);
        let y0 = clamp_px(rect.y, self.height);
        let x1 = clamp_px(rect.x + rect.width, self.width);
        let y1 = clamp_px(rect.y + rect.height, self.height);
        let mut y = y0;
        while y < y1
            invariant
                self.wf(),
                self.width == old(self).width,
                self.height == old(self).height,
                y0 <= y,
                y <= y1 || y == y0,
                y1 <= self.height,
                x0 <= self.width,
                x1 <= self.width,
                forall|yy: int, xx: int|
                    0 <= yy < self.height && 0 <= xx < self.width
                        ==> #[trigger] self.pixels@[yy * self.width + xx] == (if x0 <= xx < x1
                        && y0 <= yy < y {
                        *color
                    } else {
                        old(self).pixels@[yy * self.width + xx]
                    }),
            decreases y1 - y,
        {
            let mut x = x0;
            while x < x1
                invariant
                    self.wf(),
                    self.width == old(self).width,
                    self.height == old(self).height,
                    y0 <= y < y1,
                    y1 <= self.height,
                    x0 <= x,
                    x <= x1 || x == x0,
                    x1 <= self.width,
                    forall|yy: int, xx: int|
                        0 <= yy < self.height && 0 <= xx < self.width
                            ==> #[trigger] self.pixels@[yy * self.width + xx] == (if (x0 <= xx < x1
                            && y0 <= yy < y) || (yy == y && x0 <= xx < x) {
                            *color
                        } else {
                            old(self).pixels@[yy * self.width + xx]
                        }),
                decreases x1 - x,
            {
                proof {
                    assert(self.width * self.height <= 0xffff * 0xffff) by (nonlinear_arith)
                        requires
                            0 <= self.width <= 0xffff,
                            0 <= self.height <= 0xffff,
                    ;
                    assert(y * self.width + x < self.width * self.height) by (nonlinear_arith)
                        requires
                            0 <= y,
                            0 <= x,
                            y < self.height,
                            x < self.width,
                            self.width <= 0xffff,
                            self.height <= 0xffff,
                    ;
                    assert(y * self.width + x >= 0) by (nonlinear_arith)
                        requires
                            0 <= y,
                            0 <= x,
                    ;
                }
                let idx: usize = y * self.width + x;
                let ghost before = self.pixels@;
                self.pixels[idx] = *color;
                proof {
                    assert(self.pixels@ == before.update(idx as int, *color));
                    assert forall|yy: int, xx: int|
                        0 <= yy < self.height && 0 <= xx < self.width implies #[trigger] self.pixels@[
                        yy * self.width + xx
                    ] == (if (x0 <= xx < x1 && y0 <= yy < y) || (yy == y && x0 <= xx < x + 1) {
                        *color
                    } else {
                        old(self).pixels@[yy * self.width + xx]
                    }) by {
                        assert(0 <= yy * self.width + xx < self.width * self.height)
                            by (nonlinear_arith)
                            requires
                                0 <= yy < self.height,
                                0 <= xx < self.width,
                        ;
                        assert(before[yy * self.width + xx] == (if (x0 <= xx < x1 && y0 <= yy < y)
                            || (yy == y && x0 <= xx < x) {
                            *color
                        } else {
                            old(self).pixels@[yy * self.width + xx]
                        }));
                        assert((yy * self.width + xx == y * self.width + x) <==> (yy == y && xx
                            == x)) by (nonlinear_arith)
                            requires
                                0 <= yy,
                                0 <= xx < self.width,
                                0 <= y,
                                0 <= x < self.width,
                                self.width >= 1,
                        ;
                    }
                }
                x += 1;
            }
            proof {
                assert forall|yy: int, xx: int|
                    0 <= yy < self.height && 0 <= xx < self.width implies #[trigger] self.pixels@[
                    yy * self.width + xx
                ] == (if x0 <= xx < x1 && y0 <= yy < y + 1 {
                    *color
                } else {
                    old(self).pixels@[yy * self.width + xx]
                }) by {}
            }
            y += 1;
        }
        proof {
            assert(x0 as int == clampi(rect@.x, self.width as int));
            assert(x1 as int == clampi(rect@.x + rect@.width, self.width as int));
            assert(y0 as int == clampi(rect@.y, self.height as int));
            assert(y1 as int == clampi(rect@.y + rect@.height, self.height as int));
        }
    }
}

/// The machine can form a command's clip bounds.
pub open spec fn cmd_fits(c: DisplayCommandView) -> bool {
    match c {
        DisplayCommandView::SolidColor(_, rect) => in_px_range(rect.x + rect.width) && in_px_range(
            rect.y + rect.height,
        ),
    }
}

/// Clamp an integer coordinate into `[0, hi]`.
pub open spec fn clampi(v: int, hi: int) -> int {
    if v < 0 {
        0
    } else if v > hi {
        hi
    } else {
        v
    }
}

fn clamp_px(v: i64, hi: usize) -> (r: usize)
    requires
        hi <= 0xffff,
    ensures
        r as int == clampi(v as int, hi as int),
        r <= hi,
{
    if v < 0 {
        0
    } else if v > hi as i64 {
        hi
    } else {
        v as usize
    }
}

/// Paint a laid-out tree of boxes to an array of pixels.
pub fn paint(layout_root: &LayoutBox, bounds: Rect) -> (r: Canvas)
    requires
        paint_fits_tree(layout_root@),
        0 <= bounds.width <= 0xffff,
        0 <= bounds.height <= 0xffff,
        forall|k: int|
            0 <= k < spec_render(layout_root@).len() ==> cmd_fits(
                #[trigger] spec_render(layout_root@)[k],
            ),
    ensures
        r.wf(),
        r.width == bounds.width as usize,
        r.height == bounds.height as usize,
{
    let display_list = build_display_list(layout_root);
    let mut canvas = Canvas::new(bounds.width as usize, bounds.height as usize);
    let n = display_list.len();
    let mut i: usize = 0;
    while i < n
        invariant
            canvas.wf(),
            canvas.width == bounds.width as usize,
            canvas.height == bounds.height as usize,
            n == display_list@.len(),
            dl_views(display_list@) =~= spec_render(layout_root@),
            forall|k: int|
                0 <= k < spec_render(layout_root@).len() ==> cmd_fits(
                    #[trigger] spec_render(layout_root@)[k],
                ),
        decreases n - i,
    {
        let item = &display_list[i];
        proof {
            assert(item@ == dl_views(display_list@)[i as int]);
        }
        canvas.paint_item(item);
        i += 1;
    }
    canvas
}

} // verus!
