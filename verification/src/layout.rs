//! The box-layout engine: box tree construction, width/margin
//! resolution, vertical stacking, inline line wrapping, and the
//! position resolver.
//!
//! All sizes are whole CSS pixels.

use vstd::prelude::*;
use vstd::string::StringExecFns;
use crate::css::{Unit, Value, ValueView};
use crate::strutil::str_eq;
use crate::style::{spec_lookup, PropertyMap};

pub mod laws;
pub mod model;

use model::{
    box_mass, box_size, box_views, boxes_mass, height_v, iabs, layout_fits, msh_v, msw_v,
    spec_layout, width_v, zero_len_v, BoxView, DimsV, PX_LIMIT,
};

verus! {

/// Failures of the layout pipeline.  All are violations of the input
/// data contract: they end the current layout call at once.
#[derive(Clone, Copy, Debug, PartialEq, Eq, Structural)]
pub enum LayoutError {
    /// The root node's computed display is `none`: no box tree exists.
    InvalidRoot,
    /// A style property was looked up on an anonymous block.
    NoStyleNode,
    /// A value expected to be a pixel length was a non-length keyword
    /// or a color.
    MalformedLength,
}

impl Value {
    /// Whether this value resolves to a pixel magnitude with no context.
    pub fn is_specific_length(&self) -> (r: bool)
        ensures
            r == self@.is_specific_length(),
    {
        match self {
            Value::Length(_, _) => true,
            Value::Keyword(_) => false,
            Value::ColorValue(_) => false,
        }
    }

    /// Whether this value is the distinguished `auto` keyword.
    pub fn is_auto(&self) -> (r: bool)
        ensures
            r == self@.is_auto(),
    {
        match self {
            Value::Keyword(keyword) => str_eq(keyword.as_str(), "auto"),
            _ => false,
        }
    }

    /// The pixel magnitude of a length.  Asking a keyword or a color
    /// for pixels is a data-contract violation.
    pub fn to_px(&self) -> (r: Result<i64, LayoutError>)
        ensures
            match r {
                Ok(px) => self@.is_specific_length() && px as int == self@.px_or_zero(),
                Err(e) => !self@.is_specific_length() && e == LayoutError::MalformedLength,
            },
    {
        match self {
            Value::Length(m, _) => Ok(*m),
            _ => Err(LayoutError::MalformedLength),
        }
    }

    /// The pixel magnitude of a length; any other value counts as 0.
    pub(crate) fn used_px(&self) -> (r: i64)
        ensures
            r as int == self@.px_or_zero(),
    {
        match self {
            Value::Length(m, _) => *m,
            _ => 0,
        }
    }
}

/// Per-box geometry: the content box, the three edge rings around it,
/// the offset relative to the parent's content origin, and the
/// absolute document position filled in by the position resolver.
#[derive(Clone, Copy, Debug, PartialEq, Eq, Structural)]
pub struct Dimensions {
    pub inner: InnerContent,
    pub padding: EdgeSizes,
    pub border: EdgeSizes,
    pub margin: EdgeSizes,
    pub box_offset: BoxOffset,
    pub box_abs: BoxAbs,
}

/// The content box: its inset from the margin edge, and its size.
#[derive(Clone, Copy, Debug, PartialEq, Eq, Structural)]
pub struct InnerContent {
    pub left: i64,
    pub top: i64,
    pub width: i64,
    pub height: i64,
}

/// A box's position relative to its parent's content origin.
#[derive(Clone, Copy, Debug, PartialEq, Eq, Structural)]
pub struct BoxOffset {
    pub left: i64,
    pub top: i64,
}

/// A box's absolute document-coordinate origin; valid only after the
/// position resolver has visited the box.
#[derive(Clone, Copy, Debug, PartialEq, Eq, Structural)]
pub struct BoxAbs {
    pub x: i64,
    pub y: i64,
}

/// Four-sided edge sizes (margins, borders, or paddings).
#[derive(Clone, Copy, Debug, PartialEq, Eq, Structural)]
pub struct EdgeSizes {
    pub left: i64,
    pub right: i64,
    pub top: i64,
    pub bottom: i64,
}

/// An axis-aligned rectangle in absolute document coordinates.
#[derive(Clone, Copy, Debug, PartialEq, Eq, Structural)]
pub struct Rect {
    pub x: i64,
    pub y: i64,
    pub width: i64,
    pub height: i64,
}

impl Default for Dimensions {
    /// All-zero geometry, the state of a freshly built box.
    fn default() -> (r: Self)
        ensures
            r@ == DimsV::zero(),
    {
        Dimensions {
            inner: InnerContent { left: 0, top: 0, width: 0, height: 0 },
            padding: EdgeSizes { left: 0, right: 0, top: 0, bottom: 0 },
            border: EdgeSizes { left: 0, right: 0, top: 0, bottom: 0 },
            margin: EdgeSizes { left: 0, right: 0, top: 0, bottom: 0 },
            box_offset: BoxOffset { left: 0, top: 0 },
            box_abs: BoxAbs { x: 0, y: 0 },
        }
    }
}

impl Dimensions {
    /// The content box's left inset within the margin box, plus the
    /// box's offset from the parent content origin.
    pub fn get_left(&self) -> (r: i64)
        requires
            model::in_px_range(self@.box_offset.left + self@.inner.left),
        ensures
            r as int == model::get_left_v(self@),
    {
        self.box_offset.left + self.inner.left
    }

    /// The vertical counterpart of [`Self::get_left`].
    pub fn get_top(&self) -> (r: i64)
        requires
            model::in_px_range(self@.box_offset.top + self@.inner.top),
        ensures
            r as int == model::get_top_v(self@),
    {
        self.box_offset.top + self.inner.top
    }

    /// The height of the margin box: the content plus all three edge
    /// rings, top and bottom.
    pub fn margin_box_height(&self) -> (r: i64)
        requires
            model::hsum(self@) <= model::PX_LIMIT as int * 4,
        ensures
            r as int == model::margin_height_v(self@),
    {
        self.inner.height + self.padding.top + self.padding.bottom + self.border.top
            + self.border.bottom + self.margin.top + self.margin.bottom
    }

    /// The width of the margin box: the content plus all three edge
    /// rings, left and right.
    pub fn margin_box_width(&self) -> (r: i64)
        requires
            model::wsum(self@) <= model::PX_LIMIT as int * 4,
        ensures
            r as int == model::margin_width_v(self@),
    {
        self.inner.width + self.padding.left + self.padding.right + self.border.left
            + self.border.right + self.margin.left + self.margin.right
    }

    /// The area covered by the content area plus its padding.
    pub fn padding_box(self) -> (r: Rect)
        requires
            model::expand_fits(model::abs_content_rect(self@), self@.padding),
        ensures
            r@ == model::padding_rect(self@),
    {
        self.abs_content_box().expanded_by(self.padding)
    }

    /// The area covered by the content area plus padding and borders.
    pub fn border_box(self) -> (r: Rect)
        requires
            model::expand_fits(model::abs_content_rect(self@), self@.padding),
            model::expand_fits(model::padding_rect(self@), self@.border),
        ensures
            r@ == model::border_rect(self@),
    {
        self.padding_box().expanded_by(self.border)
    }

    /// The area covered by the content area plus padding, borders, and
    /// margin.
    pub fn margin_box(self) -> (r: Rect)
        requires
            model::expand_fits(model::abs_content_rect(self@), self@.padding),
            model::expand_fits(model::padding_rect(self@), self@.border),
            model::expand_fits(model::border_rect(self@), self@.margin),
        ensures
            r@ == model::margin_rect(self@),
    {
        self.border_box().expanded_by(self.margin)
    }

    /// The content area positioned at the box's absolute origin.
    fn abs_content_box(self) -> (r: Rect)
        ensures
            r@ == model::abs_content_rect(self@),
    {
        Rect { x: self.box_abs.x, y: self.box_abs.y, width: self.inner.width, height: self.inner.height }
    }
}

impl Rect {
    /// Grow the rectangle outward by the given edge sizes.
    fn expanded_by(self, edge: EdgeSizes) -> (r: Rect)
        requires
            model::expand_fits(self@, edge@),
        ensures
            r@ == model::expand_rect(self@, edge@),
    {
        Rect {
            x: self.x - edge.left,
            y: self.y - edge.top,
            width: self.width + edge.left + edge.right,
            height: self.height + edge.top + edge.bottom,
        }
    }
}

/// The kind of a layout box, with the specified style of the node it
/// came from.  Anonymous blocks carry no style.
#[derive(Debug)]
pub enum BoxType {
    BlockNode(PropertyMap),
    InlineBlockNode(PropertyMap),
    InlineNode(PropertyMap),
    AnonymousBlock,
}

/// A node of the layout tree.
#[derive(Debug)]
pub struct LayoutBox {
    pub dimensions: Dimensions,
    pub box_type: BoxType,
    pub children: Vec<LayoutBox>,
}

/// A run inside an inline formatting context: a text run or an atomic
/// inline-level box.
#[derive(Debug, Clone, Copy, PartialEq, Eq, Structural)]
pub enum InlineFormattingContextRun {
    TextRun(),
    Atom(),
}

/// A node's computed `display` value.
#[derive(Debug, Clone, Copy, PartialEq, Eq, Structural)]
pub enum Display {
    Inline,
    InlineBlock,
    Block,
    DisplayNone,
}

// ---------------------------------------------------------------------
// Style reads used by the layout pass.
// ---------------------------------------------------------------------

/// The declared `width`, defaulting to `auto`.
fn style_width(props: &PropertyMap) -> (r: Value)
    ensures
        r@ == width_v(props@),
{
    proof {
        reveal(width_v);
    }
    match props.get("width") {
        Some(v) => v.clone(),
        None => Value::Keyword(String::from_str("auto")),
    }
}

/// The declared `height`, defaulting to `auto`.
fn style_height(props: &PropertyMap) -> (r: Value)
    ensures
        r@ == height_v(props@),
{
    proof {
        reveal(height_v);
    }
    match props.get("height") {
        Some(v) => v.clone(),
        None => Value::Keyword(String::from_str("auto")),
    }
}

/// Read a sizing property with its fallback, defaulting to 0; a value
/// that is neither a length nor `auto` is malformed.
fn sizing_lookup(props: &PropertyMap, name: &str, fallback: &str) -> (r: Result<
    Value,
    LayoutError,
>)
    ensures
        match r {
            Ok(v) => v@ == spec_lookup(props@, name@, fallback@, zero_len_v()) && v@.is_sizing(),
            Err(e) => !spec_lookup(props@, name@, fallback@, zero_len_v()).is_sizing() && e
                == LayoutError::MalformedLength,
        },
{
    let zero = Value::Length(0, Unit::Px);
    let v = props.lookup(name, fallback, &zero);
    if v.is_specific_length() || v.is_auto() {
        Ok(v)
    } else {
        Err(LayoutError::MalformedLength)
    }
}

/// The underflow policy, executed on machine words.
fn resolve_width_exec(w: &Value, mlv: &Value, mrv: &Value, sum_bp: i64, c: i64) -> (r: (
    i64,
    i64,
    i64,
))
    requires
        w@.is_sizing(),
        mlv@.is_sizing(),
        mrv@.is_sizing(),
        -(PX_LIMIT as int) <= w@.px_or_zero() <= PX_LIMIT as int,
        -(PX_LIMIT as int) <= mlv@.px_or_zero() <= PX_LIMIT as int,
        -(PX_LIMIT as int) <= mrv@.px_or_zero() <= PX_LIMIT as int,
        -(PX_LIMIT as int) <= sum_bp as int <= PX_LIMIT as int,
        -(PX_LIMIT as int) <= c as int <= PX_LIMIT as int,
    ensures
        r.0 as int == model::resolve_width(w@, mlv@, mrv@, sum_bp as int, c as int).0,
        r.1 as int == model::resolve_width(w@, mlv@, mrv@, sum_bp as int, c as int).1,
        r.2 as int == model::resolve_width(w@, mlv@, mrv@, sum_bp as int, c as int).2,
{
    proof {
        reveal(model::resolve_width);
    }
    let w0 = w.used_px();
    let ml0 = mlv.used_px();
    let mr0 = mrv.used_px();
    let total = ml0 + mr0 + sum_bp + w0;
    let u = c - total;
    if w.is_auto() {
        if u >= 0 {
            (u, ml0, mr0)
        } else {
            (0, ml0, mr0 + u)
        }
    } else {
        let ml_auto = mlv.is_auto() && total <= c;
        let mr_auto = mrv.is_auto() && total <= c;
        if ml_auto && mr_auto {
            (w0, u / 2, u / 2)
        } else if ml_auto {
            (w0, u, mr0)
        } else if mr_auto {
            (w0, ml0, u)
        } else {
            (w0, ml0, mr0 + u)
        }
    }
}

/// Everything the flow pass reads from a style, validated: the width
/// and height values, the margin values (whose `auto` matters to the
/// policy), and the used pixel value of every edge.
struct FlowStyle {
    width: Value,
    height: Value,
    mlv: Value,
    mrv: Value,
    ml: i64,
    mr: i64,
    mt: i64,
    mb: i64,
    bl: i64,
    br: i64,
    bt: i64,
    bb: i64,
    pl: i64,
    pr: i64,
    pt: i64,
    pb: i64,
}

/// Read and validate every sizing property the flow pass uses.
#[verifier::rlimit(100)]
fn read_flow_style(style: &PropertyMap) -> (r: Result<FlowStyle, LayoutError>)
    ensures
        match r {
            Ok(fs) => model::flow_sizing_ok(style@) && fs.width@ == width_v(style@) && fs.height@
                == height_v(style@) && fs.mlv@ == model::ml_v(style@) && fs.mrv@ == model::mr_v(
                style@,
            ) && fs.ml as int == model::ml_v(style@).px_or_zero() && fs.mr as int == model::mr_v(
                style@,
            ).px_or_zero() && fs.mt as int == model::mt_v(style@).px_or_zero() && fs.mb as int
                == model::mb_v(style@).px_or_zero() && fs.bl as int == model::bl_v(
                style@,
            ).px_or_zero() && fs.br as int == model::br_v(style@).px_or_zero() && fs.bt as int
                == model::bt_v(style@).px_or_zero() && fs.bb as int == model::bb_v(
                style@,
            ).px_or_zero() && fs.pl as int == model::pl_v(style@).px_or_zero() && fs.pr as int
                == model::pr_v(style@).px_or_zero() && fs.pt as int == model::pt_v(
                style@,
            ).px_or_zero() && fs.pb as int == model::pb_v(style@).px_or_zero(),
            Err(e) => !model::flow_sizing_ok(style@) && e == LayoutError::MalformedLength,
        },
{
    proof {
        reveal(model::ml_v);
        reveal(model::mr_v);
        reveal(model::mt_v);
        reveal(model::mb_v);
        reveal(model::bl_v);
        reveal(model::br_v);
        reveal(model::bt_v);
        reveal(model::bb_v);
        reveal(model::pl_v);
        reveal(model::pr_v);
        reveal(model::pt_v);
        reveal(model::pb_v);
    }
    let width = style_width(style);
    if !(width.is_specific_length() || width.is_auto()) {
        return Err(LayoutError::MalformedLength);
    }
    let height = style_height(style);
    if !(height.is_specific_length() || height.is_auto()) {
        return Err(LayoutError::MalformedLength);
    }
    let mlv = match sizing_lookup(style, "margin-left", "margin") {
        Ok(v) => v,
        Err(e) => {
            return Err(e);
        },
    };
    let mrv = match sizing_lookup(style, "margin-right", "margin") {
        Ok(v) => v,
        Err(e) => {
            return Err(e);
        },
    };
    let mtv = match sizing_lookup(style, "margin-top", "margin") {
        Ok(v) => v,
        Err(e) => {
            return Err(e);
        },
    };
    let mbv = match sizing_lookup(style, "margin-bottom", "margin") {
        Ok(v) => v,
        Err(e) => {
            return Err(e);
        },
    };
    let blv = match sizing_lookup(style, "border-left-width", "border-width") {
        Ok(v) => v,
        Err(e) => {
            return Err(e);
        },
    };
    let brv = match sizing_lookup(style, "border-right-width", "border-width") {
        Ok(v) => v,
        Err(e) => {
            return Err(e);
        },
    };
    let btv = match sizing_lookup(style, "border-top-width", "border-width") {
        Ok(v) => v,
        Err(e) => {
            return Err(e);
        },
    };
    let bbv = match sizing_lookup(style, "border-bottom-width", "border-width") {
        Ok(v) => v,
        Err(e) => {
            return Err(e);
        },
    };
    let plv = match sizing_lookup(style, "padding-left", "padding") {
        Ok(v) => v,
        Err(e) => {
            return Err(e);
        },
    };
    let prv = match sizing_lookup(style, "padding-right", "padding") {
        Ok(v) => v,
        Err(e) => {
            return Err(e);
        },
    };
    let ptv = match sizing_lookup(style, "padding-top", "padding") {
        Ok(v) => v,
        Err(e) => {
            return Err(e);
        },
    };
    let pbv = match sizing_lookup(style, "padding-bottom", "padding") {
        Ok(v) => v,
        Err(e) => {
            return Err(e);
        },
    };
    let ml = mlv.used_px();
    let mr = mrv.used_px();
    Ok(
        FlowStyle {
            width,
            height,
            mlv,
            mrv,
            ml,
            mr,
            mt: mtv.used_px(),
            mb: mbv.used_px(),
            bl: blv.used_px(),
            br: brv.used_px(),
            bt: btv.used_px(),
            bb: bbv.used_px(),
            pl: plv.used_px(),
            pr: prv.used_px(),
            pt: ptv.used_px(),
            pb: pbv.used_px(),
        },
    )
}

/// Lay out `children` in order against `(cpass, kpass)`, stacking
/// them vertically; each child's offset is the running sum of its
/// earlier siblings' margin-box heights.  The widest margin box is
/// tracked only when `track_max` is set (the deferred-width pass,
/// which runs under a non-specific container).
#[verifier::rlimit(100)]
#[verifier::loop_isolation(false)]
fn stack_children(children: Vec<LayoutBox>, cpass: &Value, kpass: &Value, track_max: bool) -> (r:
    Result<(Vec<LayoutBox>, i64, i64), LayoutError>)
    requires
        forall|i: int|
            0 <= i < box_views(children@).len() ==> layout_fits(
                #[trigger] box_views(children@)[i],
                cpass@,
                kpass@,
            ),
        4 * boxes_mass(box_views(children@)) <= PX_LIMIT as int,
        track_max ==> !cpass@.is_specific_length(),
    ensures
        match r {
            Ok(t) => model::stack_flow(box_views(children@), cpass@, kpass@) is Ok && box_views(
                t.0@,
            ) == model::stack_flow(box_views(children@), cpass@, kpass@)->Ok_0.out && t.1 as int
                == model::stack_flow(box_views(children@), cpass@, kpass@)->Ok_0.sum_h && (
            track_max ==> t.2 as int == model::stack_flow(
                box_views(children@),
                cpass@,
                kpass@,
            )->Ok_0.max_w),
            Err(e) => model::stack_flow(box_views(children@), cpass@, kpass@) == Err::<
                model::StackState,
                LayoutError,
            >(e),
        },
    decreases model::boxes_size(box_views(children@)), 4int,
{
    let ghost cs = box_views(children@);
    let ghost cpassv = cpass@;
    let ghost kpassv = kpass@;
    let mut children = children;
    proof {
        model::lemma_box_views(children@);
        laws::lemma_boxes_mass_nonneg(cs);
        laws::lemma_boxes_size_nonneg(cs);
        assert(cs.take(0) =~= Seq::<BoxView>::empty());
    }
    let n = children.len();
    let mut new_children: Vec<LayoutBox> = Vec::new();
    let mut sum_h: i64 = 0;
    let mut max_w: i64 = 0;
    proof {
        assert(box_views(new_children@) =~= Seq::<BoxView>::empty());
    }
    while children.len() > 0
        invariant
            children@.len() <= n,
            new_children@.len() == n - children@.len(),
            forall|j: int|
                0 <= j < children@.len() ==> children@[j]@ == cs[n - children@.len() + j],
            model::stack_flow(cs.take(n - children@.len()), cpassv, kpassv) is Ok,
            box_views(new_children@) == model::stack_flow(
                cs.take(n - children@.len()),
                cpassv,
                kpassv,
            )->Ok_0.out,
            sum_h as int == model::stack_flow(
                cs.take(n - children@.len()),
                cpassv,
                kpassv,
            )->Ok_0.sum_h,
            track_max ==> max_w as int == model::stack_flow(
                cs.take(n - children@.len()),
                cpassv,
                kpassv,
            )->Ok_0.max_w,
            !track_max ==> max_w == 0,
        decreases children.len(),
    {
        let ghost i = n as int - children@.len();
        let ghost prevvec = new_children@;
        let ghost kids0 = children@;
        let c = children.remove(0);
        proof {
            assert(c@ == cs[i]);
            laws::lemma_boxes_elem(cs, i);
            laws::lemma_box_mass_nonneg(c@);
            laws::lemma_box_size_pos(c@);
            assert forall|j: int| 0 <= j < children@.len() implies children@[j]@ == cs[n
                - children@.len() + j] by {
                assert(children@[j] == kids0[j + 1]);
            }
        }
        let mut c1 = match c.layout(cpass.clone(), kpass.clone()) {
            Ok(x) => x,
            Err(e) => {
                proof {
                    laws::lemma_stack_err(cs, cpassv, kpassv, i, e);
                }
                return Err(e);
            },
        };
        proof {
            laws::lemma_layout_bounds(c@, cpassv, kpassv);
            laws::lemma_msums(c1@.dimensions);
            laws::lemma_stack_bounds(cs.take(i), cpassv, kpassv);
            laws::lemma_boxes_take_le(cs, i);
            laws::lemma_boxes_take_step(cs, i);
        }
        c1.dimensions.box_offset.left = 0;
        c1.dimensions.box_offset.top = sum_h;
        proof {
            assert(c1@ == model::set_offset(
                model::spec_layout(cs[i], cpassv, kpassv)->Ok_0,
                0,
                sum_h as int,
            ));
            assert(model::hsum(c1@.dimensions) <= box_mass(cs[i]));
        }
        let mh = c1.dimensions.margin_box_height();
        let ghost placed = c1@;
        if track_max {
            let mw = c1.dimensions.margin_box_width();
            if mw > max_w {
                max_w = mw;
            }
        }
        new_children.push(c1);
        sum_h = sum_h + mh;
        proof {
            assert(cs.take(i + 1).drop_last() =~= cs.take(i));
            assert(cs.take(i + 1).last() == cs[i]);
            assert(new_children@.drop_last() =~= prevvec);
            assert(new_children@.last() == c1);
            assert(box_views(new_children@) == box_views(prevvec).push(placed));
        }
    }
    proof {
        assert(cs.take(n as int) =~= cs);
    }
    Ok((new_children, sum_h, max_w))
}

/// The fill pass over already-stacked children: those with a style of
/// their own and an auto width are laid out once more against the
/// now-known container width `c2`, keeping the offsets the stacking
/// pass gave them.  `skel` is the children as they stood before the
/// stacking pass.
#[verifier::rlimit(100)]
#[verifier::loop_isolation(false)]
fn fill_children(laid: Vec<LayoutBox>, c2: i64, Ghost(skel): Ghost<Seq<BoxView>>) -> (r: Result<
    Vec<LayoutBox>,
    LayoutError,
>)
    requires
        laws::similar_seq(box_views(laid@), skel),
        forall|i: int|
            0 <= i < skel.len() ==> layout_fits(
                #[trigger] box_views(laid@)[i],
                ValueView::Length(c2 as int, Unit::Px),
                ValueView::Length(c2 as int, Unit::Px),
            ),
    ensures
        match r {
            Ok(out) => model::relayout_seq(skel, box_views(laid@), c2 as int) == Ok::<
                Seq<BoxView>,
                LayoutError,
            >(box_views(out@)),
            Err(e) => model::relayout_seq(skel, box_views(laid@), c2 as int) == Err::<
                Seq<BoxView>,
                LayoutError,
            >(e),
        },
    decreases model::boxes_size(skel), 4int,
{
    let ghost laidv = box_views(laid@);
    let ghost c2v = ValueView::Length(c2 as int, Unit::Px);
    let mut laid = laid;
    proof {
        model::lemma_box_views(laid@);
        laws::lemma_boxes_size_nonneg(skel);
        assert(laidv.len() == skel.len());
        assert(skel.take(0) =~= Seq::<BoxView>::empty());
        assert(laidv.take(0) =~= Seq::<BoxView>::empty());
    }
    let n = laid.len();
    let mut out2: Vec<LayoutBox> = Vec::new();
    proof {
        assert(box_views(out2@) =~= Seq::<BoxView>::empty());
    }
    while laid.len() > 0
        invariant
            laid@.len() <= n,
            out2@.len() == n - laid@.len(),
            forall|j: int| 0 <= j < laid@.len() ==> laid@[j]@ == laidv[n - laid@.len() + j],
            model::relayout_seq(
                skel.take(n - laid@.len()),
                laidv.take(n - laid@.len()),
                c2 as int,
            ) == Ok::<Seq<BoxView>, LayoutError>(box_views(out2@)),
        decreases laid.len(),
    {
        let ghost j = n as int - laid@.len();
        let ghost prevout = out2@;
        let ghost kids1 = laid@;
        let c1 = laid.remove(0);
        proof {
            assert(c1@ == laidv[j]);
            laws::lemma_similar_seq_elem(laidv, skel, j);
            laws::lemma_similar_mass(laidv[j], skel[j]);
            laws::lemma_boxes_elem(skel, j);
            laws::lemma_box_mass_nonneg(skel[j]);
            laws::lemma_box_size_pos(skel[j]);
            assert forall|jj: int| 0 <= jj < laid@.len() implies laid@[jj]@ == laidv[n
                - laid@.len() + jj] by {
                assert(laid@[jj] == kids1[jj + 1]);
            }
        }
        let needs: bool = match &c1.box_type {
            BoxType::AnonymousBlock => false,
            BoxType::BlockNode(p) => style_width(p).is_auto(),
            BoxType::InlineBlockNode(p) => style_width(p).is_auto(),
            BoxType::InlineNode(p) => style_width(p).is_auto(),
        };
        proof {
            assert(needs == model::needs_relayout(laidv[j]));
            assert(model::needs_relayout(laidv[j]) == model::needs_relayout(skel[j]));
        }
        if needs {
            proof {
                laws::lemma_layout_cong(c1@, skel[j], c2v, c2v);
                assert(box_size(c1@) <= model::boxes_size(skel));
            }
            let nb2 = match c1.layout(Value::Length(c2, Unit::Px), Value::Length(c2, Unit::Px)) {
                Ok(x) => x,
                Err(e) => {
                    proof {
                        assert(model::spec_layout(skel[j], c2v, c2v) == Err::<
                            BoxView,
                            LayoutError,
                        >(e));
                        laws::lemma_relayout_err(skel, laidv, c2 as int, j, e);
                    }
                    return Err(e);
                },
            };
            out2.push(nb2);
            proof {
                assert(nb2@ == model::set_offset(
                    model::spec_layout(skel[j], c2v, c2v)->Ok_0,
                    laidv[j].dimensions.box_offset.left,
                    laidv[j].dimensions.box_offset.top,
                ));
                assert(skel.take(j + 1).drop_last() =~= skel.take(j));
                assert(laidv.take(j + 1).drop_last() =~= laidv.take(j));
                assert(skel.take(j + 1).last() == skel[j]);
                assert(laidv.take(j + 1).last() == laidv[j]);
                assert(out2@.drop_last() =~= prevout);
                assert(box_views(out2@) == box_views(prevout).push(nb2@));
            }
        } else {
            out2.push(c1);
            proof {
                assert(skel.take(j + 1).drop_last() =~= skel.take(j));
                assert(laidv.take(j + 1).drop_last() =~= laidv.take(j));
                assert(skel.take(j + 1).last() == skel[j]);
                assert(laidv.take(j + 1).last() == laidv[j]);
                assert(out2@.drop_last() =~= prevout);
                assert(box_views(out2@) == box_views(prevout).push(laidv[j]));
            }
        }
    }
    proof {
        assert(skel.take(n as int) =~= skel);
        assert(laidv.take(n as int) =~= laidv);
    }
    Ok(out2)
}

impl LayoutBox {
    /// A fresh box of the given kind, with zeroed geometry and no
    /// children.
    fn new(box_type: BoxType) -> (r: LayoutBox)
        ensures
            r@.box_type == box_type@,
            r@.dimensions == DimsV::zero(),
            r@.children == Seq::<BoxView>::empty(),
    {
        LayoutBox { box_type, dimensions: Default::default(), children: Vec::new() }
    }

    /// The style of the node this box came from; an anonymous block
    /// has none.
    fn get_style_node(&self) -> (r: Result<&PropertyMap, LayoutError>)
        ensures
            match r {
                Ok(p) => self@.box_type.has_style() && p@ == self@.box_type.props(),
                Err(e) => !self@.box_type.has_style() && e == LayoutError::NoStyleNode,
            },
    {
        match &self.box_type {
            BoxType::BlockNode(p) => Ok(p),
            BoxType::InlineNode(p) => Ok(p),
            BoxType::InlineBlockNode(p) => Ok(p),
            BoxType::AnonymousBlock => Err(LayoutError::NoStyleNode),
        }
    }

    /// Whether the box's own declared width is `auto` (looking a
    /// style property up on an anonymous block fails).
    pub fn is_width_auto(&self) -> (r: Result<bool, LayoutError>)
        ensures
            match r {
                Ok(v) => self@.box_type.has_style() && v == width_v(
                    self@.box_type.props(),
                ).is_auto(),
                Err(e) => !self@.box_type.has_style() && e == LayoutError::NoStyleNode,
            },
    {
        match self.get_style_node() {
            Ok(style) => {
                let width = style_width(style);
                Ok(width.is_auto())
            },
            Err(e) => Err(e),
        }
    }

    /// Lay the box out against `container_width` — the width of its
    /// containing block, `auto` when not yet known — under the hard
    /// shrink-to-fit bound `constraint_width`.  On success the box's
    /// geometry is exactly the model's; the call fails exactly when a
    /// sizing property somewhere in the reached tree is neither a
    /// length nor `auto`.
    pub fn layout(self, container_width: Value, constraint_width: Value) -> (r: Result<
        LayoutBox,
        LayoutError,
    >)
        requires
            layout_fits(self@, container_width@, constraint_width@),
        ensures
            match r {
                Ok(nb) => spec_layout(self@, container_width@, constraint_width@) == Ok::<
                    BoxView,
                    LayoutError,
                >(nb@),
                Err(e) => spec_layout(self@, container_width@, constraint_width@) == Err::<
                    BoxView,
                    LayoutError,
                >(e),
            },
        decreases box_size(self@), 3int,
    {
        proof {
            laws::lemma_box_size_pos(self@);
        }
        if matches!(&self.box_type, BoxType::BlockNode(_)) {
            self.layout_block(container_width, constraint_width)
        } else if matches!(&self.box_type, BoxType::InlineNode(_)) {
            self.layout_inline(container_width, constraint_width)
        } else if matches!(&self.box_type, BoxType::InlineBlockNode(_)) {
            self.layout_inline_block(container_width, constraint_width)
        } else {
            self.layout_anonymous(container_width, constraint_width)
        }
    }

    /// Block flow: delegate to the shared width/stacking pass.
    fn layout_block(self, container_width: Value, constraint_width: Value) -> (r: Result<
        LayoutBox,
        LayoutError,
    >)
        requires
            layout_fits(self@, container_width@, constraint_width@),
            self@.box_type matches model::BoxTypeV::BlockNode(_),
        ensures
            match r {
                Ok(nb) => spec_layout(self@, container_width@, constraint_width@) == Ok::<
                    BoxView,
                    LayoutError,
                >(nb@),
                Err(e) => spec_layout(self@, container_width@, constraint_width@) == Err::<
                    BoxView,
                    LayoutError,
                >(e),
            },
        decreases box_size(self@), 2int,
    {
        self.calculate_block(container_width, constraint_width)
    }

    /// Inline-block flow: width and margins resolve exactly as for a
    /// block, only the placement by the surrounding inline run
    /// differs.
    pub fn layout_inline_block(self, container_width: Value, constraint_width: Value) -> (r:
        Result<LayoutBox, LayoutError>)
        requires
            layout_fits(self@, container_width@, constraint_width@),
            self@.box_type matches model::BoxTypeV::InlineBlockNode(_),
        ensures
            match r {
                Ok(nb) => spec_layout(self@, container_width@, constraint_width@) == Ok::<
                    BoxView,
                    LayoutError,
                >(nb@),
                Err(e) => spec_layout(self@, container_width@, constraint_width@) == Err::<
                    BoxView,
                    LayoutError,
                >(e),
            },
        decreases box_size(self@), 2int,
    {
        self.calculate_block(container_width, constraint_width)
    }

    /// The flow pass shared by block and inline-block boxes: resolve
    /// width and horizontal margins against the containing block,
    /// stack the children vertically, resolve height, and — when the
    /// width had to be deferred — fix it from the children's extent
    /// and let auto-width children fill it.
    fn calculate_block(self, container_width: Value, constraint_width: Value) -> (r: Result<
        LayoutBox,
        LayoutError,
    >)
        requires
            layout_fits(self@, container_width@, constraint_width@),
            self@.box_type matches model::BoxTypeV::BlockNode(_) || self@.box_type
                matches model::BoxTypeV::InlineBlockNode(_),
        ensures
            match r {
                Ok(nb) => spec_layout(self@, container_width@, constraint_width@) == Ok::<
                    BoxView,
                    LayoutError,
                >(nb@),
                Err(e) => spec_layout(self@, container_width@, constraint_width@) == Err::<
                    BoxView,
                    LayoutError,
                >(e),
            },
        decreases box_size(self@), 1int,
    {
        proof {
            laws::lemma_box_size_pos(self@);
        }
        let deferred: bool = match self.get_style_node() {
            Ok(st) => {
                let w = style_width(st);
                !w.is_specific_length() && !container_width.is_specific_length()
            },
            Err(_) => false,
        };
        if deferred {
            self.calculate_deferred(container_width, constraint_width)
        } else {
            self.calculate_fixed(container_width, constraint_width)
        }
    }

    /// The flow pass when the width is already determined: a declared
    /// width, or an auto width under a specific container.
    #[verifier::rlimit(100)]
    fn calculate_fixed(self, container_width: Value, constraint_width: Value) -> (r: Result<
        LayoutBox,
        LayoutError,
    >)
        requires
            layout_fits(self@, container_width@, constraint_width@),
            self@.box_type matches model::BoxTypeV::BlockNode(_) || self@.box_type
                matches model::BoxTypeV::InlineBlockNode(_),
            model::flow_sizing_ok(self@.box_type.props()) ==> width_v(
                self@.box_type.props(),
            ).is_specific_length() || container_width@.is_specific_length(),
        ensures
            match r {
                Ok(nb) => spec_layout(self@, container_width@, constraint_width@) == Ok::<
                    BoxView,
                    LayoutError,
                >(nb@),
                Err(e) => spec_layout(self@, container_width@, constraint_width@) == Err::<
                    BoxView,
                    LayoutError,
                >(e),
            },
        decreases box_size(self@), 0int,
    {
        let ghost b0 = self@;
        let ghost cw = container_width@;
        let ghost kw = constraint_width@;
        let LayoutBox { dimensions: mut d, box_type, children } = self;
        let style = match &box_type {
            BoxType::BlockNode(p) => p,
            BoxType::InlineBlockNode(p) => p,
            _ => {
                return Err(LayoutError::NoStyleNode);
            },
        };
        let ghost props = style@;
        let ghost cs = b0.children;
        proof {
            assert(props == b0.box_type.props());
            assert(cs == box_views(children@));
            laws::lemma_fits_basic(b0, cw, kw);
            laws::lemma_boxes_mass_nonneg(cs);
            laws::lemma_boxes_size_nonneg(cs);
            assert(box_mass(b0) == model::props_mass(props) + boxes_mass(cs));
            assert(box_size(b0) == 1 + model::boxes_size(cs));
        }
        let fs = match read_flow_style(style) {
            Ok(f) => f,
            Err(e) => {
                return Err(e);
            },
        };
        let FlowStyle {
            width,
            height: heightv,
            mlv,
            mrv,
            ml: ml0,
            mr: mr0,
            mt: mt0,
            mb: mb0,
            bl: bl0,
            br: br0,
            bt: bt0,
            bb: bb0,
            pl: pl0,
            pr: pr0,
            pt: pt0,
            pb: pb0,
        } = fs;
        proof {
            laws::lemma_props_px_bounds(props, box_mass(b0));
        }
        let sum_bp = bl0 + br0 + pl0 + pr0;
        let cw_specific = container_width.is_specific_length();
        let rw: (i64, i64, i64) = if cw_specific {
            let c = container_width.used_px();
            proof {
                laws::lemma_resolve_range(
                    width@,
                    mlv@,
                    mrv@,
                    sum_bp as int,
                    c as int,
                    box_mass(b0),
                    PX_LIMIT as int,
                );
            }
            resolve_width_exec(&width, &mlv, &mrv, sum_bp, c)
        } else {
            (width.used_px(), ml0, mr0)
        };
        let cpass = Value::Length(rw.0, Unit::Px);
        let ghost cpassv = cpass@;
        proof {
            laws::lemma_fixed_prep(b0, cw, kw);
            assert(cpassv == (if cw.is_specific_length() {
                ValueView::Length(
                    model::resolve_width(
                        width_v(props),
                        model::ml_v(props),
                        model::mr_v(props),
                        model::bl_v(props).px_or_zero() + model::br_v(props).px_or_zero()
                            + model::pl_v(props).px_or_zero() + model::pr_v(props).px_or_zero(),
                        cw.px_or_zero(),
                    ).0,
                    Unit::Px,
                )
            } else {
                ValueView::Length(width_v(props).px_or_zero(), Unit::Px)
            }));
        }
        let kpass = cpass.clone();
        let st = match stack_children(children, &cpass, &kpass, false) {
            Ok(t) => t,
            Err(e) => {
                return Err(e);
            },
        };
        let (new_children, sum_h, _) = st;
        let ghost stfull = model::stack_flow(cs, cpassv, cpassv)->Ok_0;
        let h1 = if heightv.is_specific_length() {
            heightv.used_px()
        } else {
            sum_h
        };
        d.margin = EdgeSizes { left: rw.1, right: rw.2, top: mt0, bottom: mb0 };
        d.border = EdgeSizes { left: bl0, right: br0, top: bt0, bottom: bb0 };
        d.padding = EdgeSizes { left: pl0, right: pr0, top: pt0, bottom: pb0 };
        d.inner = InnerContent {
            left: rw.1 + bl0 + pl0,
            top: mt0 + bt0 + pt0,
            width: rw.0,
            height: h1,
        };
        let nb = LayoutBox { dimensions: d, box_type, children: new_children };
        proof {
            assert(nb@.children == stfull.out);
            assert(spec_layout(b0, cw, kw)->Ok_0 =~= nb@);
        }
        Ok(nb)
    }

    /// The flow pass when neither the box nor its container has a
    /// specific width: measure the children against the constraint,
    /// fix the width from their widest margin box, and let auto-width
    /// children fill it.
    #[verifier::rlimit(100)]
    fn calculate_deferred(self, container_width: Value, constraint_width: Value) -> (r: Result<
        LayoutBox,
        LayoutError,
    >)
        requires
            layout_fits(self@, container_width@, constraint_width@),
            self@.box_type matches model::BoxTypeV::BlockNode(_) || self@.box_type
                matches model::BoxTypeV::InlineBlockNode(_),
            !width_v(self@.box_type.props()).is_specific_length(),
            !container_width@.is_specific_length(),
        ensures
            match r {
                Ok(nb) => spec_layout(self@, container_width@, constraint_width@) == Ok::<
                    BoxView,
                    LayoutError,
                >(nb@),
                Err(e) => spec_layout(self@, container_width@, constraint_width@) == Err::<
                    BoxView,
                    LayoutError,
                >(e),
            },
        decreases box_size(self@), 0int,
    {
        let ghost b0 = self@;
        let ghost cw = container_width@;
        let ghost kw = constraint_width@;
        let LayoutBox { dimensions: mut d, box_type, children } = self;
        let style = match &box_type {
            BoxType::BlockNode(p) => p,
            BoxType::InlineBlockNode(p) => p,
            _ => {
                return Err(LayoutError::NoStyleNode);
            },
        };
        let ghost props = style@;
        let ghost cs = b0.children;
        proof {
            assert(props == b0.box_type.props());
            assert(cs == box_views(children@));
            laws::lemma_fits_basic(b0, cw, kw);
            laws::lemma_boxes_mass_nonneg(cs);
            laws::lemma_boxes_size_nonneg(cs);
            assert(box_mass(b0) == model::props_mass(props) + boxes_mass(cs));
            assert(box_size(b0) == 1 + model::boxes_size(cs));
        }
        let fs = match read_flow_style(style) {
            Ok(f) => f,
            Err(e) => {
                return Err(e);
            },
        };
        let FlowStyle {
            width,
            height: heightv,
            mlv,
            mrv,
            ml: ml0,
            mr: mr0,
            mt: mt0,
            mb: mb0,
            bl: bl0,
            br: br0,
            bt: bt0,
            bb: bb0,
            pl: pl0,
            pr: pr0,
            pt: pt0,
            pb: pb0,
        } = fs;
        proof {
            laws::lemma_props_px_bounds(props, box_mass(b0));
        }
        let sum_bp = bl0 + br0 + pl0 + pr0;
        let kpx = constraint_width.used_px() - (ml0 + mr0 + sum_bp);
        let cpass = Value::Keyword(String::from_str("auto"));
        let kpass = Value::Length(kpx, Unit::Px);
        let ghost cpassv = cpass@;
        let ghost kpassv = kpass@;
        proof {
            assert(cpassv == model::auto_v());
            laws::lemma_deferred_prep(b0, cw, kw);
            assert(kpassv == ValueView::Length(
                kw.px_or_zero() - (model::ml_v(props).px_or_zero() + model::mr_v(
                    props,
                ).px_or_zero() + (model::bl_v(props).px_or_zero() + model::br_v(
                    props,
                ).px_or_zero() + model::pl_v(props).px_or_zero() + model::pr_v(
                    props,
                ).px_or_zero())),
                Unit::Px,
            ));
        }
        let st = match stack_children(children, &cpass, &kpass, true) {
            Ok(t) => t,
            Err(e) => {
                return Err(e);
            },
        };
        let (new_children, sum_h, max_w) = st;
        let ghost stfull = model::stack_flow(cs, cpassv, kpassv)->Ok_0;
        let h1 = if heightv.is_specific_length() {
            heightv.used_px()
        } else {
            sum_h
        };
        let w2 = max_w;
        proof {
            laws::lemma_fill_prep(b0, cw, kw, kpassv);
        }
        let c2 = max_w - (ml0 + mr0 + sum_bp);
        let ghost c2v = ValueView::Length(c2 as int, Unit::Px);
        let ghost laid = stfull.out;
        proof {
            assert(box_views(new_children@) == laid);
            assert(laws::similar_seq(laid, cs));
        }
        let out2 = match fill_children(new_children, c2, Ghost(cs)) {
            Ok(v) => v,
            Err(e) => {
                return Err(e);
            },
        };
        d.margin = EdgeSizes { left: ml0, right: mr0, top: mt0, bottom: mb0 };
        d.border = EdgeSizes { left: bl0, right: br0, top: bt0, bottom: bb0 };
        d.padding = EdgeSizes { left: pl0, right: pr0, top: pt0, bottom: pb0 };
        d.inner = InnerContent {
            left: ml0 + bl0 + pl0,
            top: mt0 + bt0 + pt0,
            width: w2,
            height: h1,
        };
        let nb = LayoutBox { dimensions: d, box_type, children: out2 };
        proof {
            assert(spec_layout(b0, cw, kw)->Ok_0 =~= nb@);
        }
        Ok(nb)
    }

    /// An inline box contributes its measured intrinsic size; its
    /// children are not visited.
    #[allow(unused_variables)]
    pub fn layout_inline(self, container_width: Value, constraint_width: Value) -> (r: Result<
        LayoutBox,
        LayoutError,
    >)
        requires
            self@.box_type matches model::BoxTypeV::InlineNode(_),
        ensures
            match r {
                Ok(nb) => spec_layout(self@, container_width@, constraint_width@) == Ok::<
                    BoxView,
                    LayoutError,
                >(nb@),
                Err(e) => spec_layout(self@, container_width@, constraint_width@) == Err::<
                    BoxView,
                    LayoutError,
                >(e),
            },
        decreases box_size(self@), 2int,
    {
        let ghost b0 = self@;
        let LayoutBox { dimensions: mut d, box_type, children } = self;
        let style = match &box_type {
            BoxType::InlineNode(p) => p,
            _ => {
                return Err(LayoutError::NoStyleNode);
            },
        };
        proof {
            reveal(msw_v);
            reveal(msh_v);
        }
        let width = match sizing_lookup(style, "measure-width", "ms-width") {
            Ok(v) => v,
            Err(e) => {
                return Err(e);
            },
        };
        let height = match sizing_lookup(style, "measure-height", "ms-height") {
            Ok(v) => v,
            Err(e) => {
                return Err(e);
            },
        };
        d.inner.left = 0;
        d.inner.top = 0;
        d.inner.width = width.used_px();
        d.inner.height = height.used_px();
        d.padding = EdgeSizes { left: 0, right: 0, top: 0, bottom: 0 };
        d.border = EdgeSizes { left: 0, right: 0, top: 0, bottom: 0 };
        d.margin = EdgeSizes { left: 0, right: 0, top: 0, bottom: 0 };
        let nb = LayoutBox { dimensions: d, box_type, children };
        proof {
            assert(spec_layout(b0, container_width@, constraint_width@) == Ok::<
                BoxView,
                LayoutError,
            >(nb@));
        }
        Ok(nb)
    }

    /// An anonymous block hosts a run of inline-level children: each
    /// is laid out at its natural size, then placed on the current
    /// line, wrapping when the line would outgrow the constraint
    /// width.
    #[allow(unused_variables)]
    #[verifier::rlimit(100)]
    #[verifier::loop_isolation(false)]
    fn layout_anonymous(self, container_width: Value, constraint_width: Value) -> (r: Result<
        LayoutBox,
        LayoutError,
    >)
        requires
            layout_fits(self@, container_width@, constraint_width@),
            self@.box_type is AnonymousBlock,
        ensures
            match r {
                Ok(nb) => spec_layout(self@, container_width@, constraint_width@) == Ok::<
                    BoxView,
                    LayoutError,
                >(nb@),
                Err(e) => spec_layout(self@, container_width@, constraint_width@) == Err::<
                    BoxView,
                    LayoutError,
                >(e),
            },
        decreases box_size(self@), 2int,
    {
        let ghost b0 = self@;
        let ghost cw = container_width@;
        let ghost kw = constraint_width@;
        let LayoutBox { dimensions: mut d, box_type, mut children } = self;
        let ghost cs = b0.children;
        let w_limit = constraint_width.used_px();
        let self_as_container_width = Value::Keyword(String::from_str("auto"));
        proof {
            assert(cs == box_views(children@));
            laws::lemma_boxes_mass_nonneg(cs);
            laws::lemma_boxes_size_nonneg(cs);
            assert(box_mass(b0) == boxes_mass(cs));
            assert(box_size(b0) == 1 + model::boxes_size(cs));
            assert(4 * box_mass(b0) <= PX_LIMIT as int);
            assert(model::px_abs(cw) <= PX_LIMIT as int);
            assert(model::px_abs(kw) <= PX_LIMIT as int);
            assert(cs.take(0) =~= Seq::<BoxView>::empty());
            model::lemma_box_views(children@);
        }
        let n = children.len();
        let mut out: Vec<LayoutBox> = Vec::new();
        proof {
            assert(box_views(out@) =~= Seq::<BoxView>::empty());
        }
        let mut this_line_children_sum_width: i64 = 0;
        let mut this_line_children_max_height: i64 = 0;
        let mut computed_lines_sum_height: i64 = 0;
        let mut computed_lines_max_width: i64 = 0;
        while children.len() > 0
            invariant
                b0.children == cs,
                b0.box_type is AnonymousBlock,
                cs.len() == n as int,
                box_mass(b0) == boxes_mass(cs),
                box_size(b0) == 1 + model::boxes_size(cs),
                boxes_mass(cs) >= 0,
                layout_fits(b0, cw, kw),
                4 * box_mass(b0) <= PX_LIMIT as int,
                model::px_abs(kw) <= PX_LIMIT as int,
                w_limit as int == kw.px_or_zero(),
                self_as_container_width@ == model::auto_v(),
                children@.len() <= n,
                out@.len() == n - children@.len(),
                forall|j: int|
                    0 <= j < children@.len() ==> children@[j]@ == cs[n - children@.len() + j],
                model::lines_stack(cs.take(n - children@.len()), kw, kw.px_or_zero()) is Ok,
                box_views(out@) == model::lines_stack(
                    cs.take(n - children@.len()),
                    kw,
                    kw.px_or_zero(),
                )->Ok_0.out,
                this_line_children_sum_width as int == model::lines_stack(
                    cs.take(n - children@.len()),
                    kw,
                    kw.px_or_zero(),
                )->Ok_0.cur_w,
                this_line_children_max_height as int == model::lines_stack(
                    cs.take(n - children@.len()),
                    kw,
                    kw.px_or_zero(),
                )->Ok_0.cur_h,
                computed_lines_sum_height as int == model::lines_stack(
                    cs.take(n - children@.len()),
                    kw,
                    kw.px_or_zero(),
                )->Ok_0.lines_h,
                computed_lines_max_width as int == model::lines_stack(
                    cs.take(n - children@.len()),
                    kw,
                    kw.px_or_zero(),
                )->Ok_0.lines_w,
            decreases children.len(),
        {
            let ghost i = n as int - children@.len();
            let ghost prevvec = out@;
            let ghost kids0 = children@;
            let c = children.remove(0);
            proof {
                assert(c@ == cs[i]);
                laws::lemma_boxes_elem(cs, i);
                laws::lemma_box_mass_nonneg(c@);
                laws::lemma_box_size_pos(c@);
                laws::lemma_fits_child(b0, cw, kw, c@, model::auto_v(), kw, 0);
                assert(box_size(c@) < box_size(b0));
                assert forall|j: int| 0 <= j < children@.len() implies children@[j]@ == cs[n
                    - children@.len() + j] by {
                    assert(children@[j] == kids0[j + 1]);
                }
            }
            let mut c1 = match c.layout(self_as_container_width.clone(), constraint_width.clone()) {
                Ok(x) => x,
                Err(e) => {
                    proof {
                        laws::lemma_lines_err(cs, kw, kw.px_or_zero(), i, e);
                    }
                    return Err(e);
                },
            };
            proof {
                laws::lemma_layout_bounds(c@, model::auto_v(), kw);
                laws::lemma_msums(c1@.dimensions);
                laws::lemma_lines_bounds(cs.take(i), kw, kw.px_or_zero());
                laws::lemma_boxes_take_le(cs, i);
                laws::lemma_boxes_take_step(cs, i);
            }
            let mw = c1.dimensions.margin_box_width();
            let mh = c1.dimensions.margin_box_height();
            if this_line_children_sum_width + mw > w_limit {
                // Wrap: commit the current line and start the next one
                // with this child.
                computed_lines_sum_height = computed_lines_sum_height
                    + this_line_children_max_height;
                if this_line_children_sum_width > computed_lines_max_width {
                    computed_lines_max_width = this_line_children_sum_width;
                }
                c1.dimensions.box_offset.left = 0;
                c1.dimensions.box_offset.top = computed_lines_sum_height;
                this_line_children_sum_width = mw;
                this_line_children_max_height = if mh > 0 {
                    mh
                } else {
                    0
                };
            } else {
                c1.dimensions.box_offset.left = this_line_children_sum_width;
                c1.dimensions.box_offset.top = computed_lines_sum_height;
                this_line_children_sum_width = this_line_children_sum_width + mw;
                if mh > this_line_children_max_height {
                    this_line_children_max_height = mh;
                }
            }
            let ghost placed = c1@;
            out.push(c1);
            proof {
                assert(cs.take(i + 1).drop_last() =~= cs.take(i));
                assert(cs.take(i + 1).last() == cs[i]);
                assert(out@.drop_last() =~= prevvec);
                assert(out@.last() == c1);
                assert(box_views(out@) == box_views(prevvec).push(placed));
            }
        }
        proof {
            assert(cs.take(n as int) =~= cs);
            laws::lemma_lines_bounds(cs, kw, kw.px_or_zero());
        }
        computed_lines_sum_height = computed_lines_sum_height + this_line_children_max_height;
        if this_line_children_sum_width > computed_lines_max_width {
            computed_lines_max_width = this_line_children_sum_width;
        }
        d.inner.left = 0;
        d.inner.top = 0;
        d.inner.width = computed_lines_max_width;
        d.inner.height = computed_lines_sum_height;
        d.padding = EdgeSizes { left: 0, right: 0, top: 0, bottom: 0 };
        d.border = EdgeSizes { left: 0, right: 0, top: 0, bottom: 0 };
        d.margin = EdgeSizes { left: 0, right: 0, top: 0, bottom: 0 };
        let nb = LayoutBox { dimensions: d, box_type, children: out };
        proof {
            assert(spec_layout(b0, cw, kw)->Ok_0 =~= nb@);
            assert(spec_layout(b0, cw, kw) is Ok);
        }
        Ok(nb)
    }

    /// Set the root's absolute origin from its own offset and inner
    /// inset, then resolve every descendant against it.  Must run only
    /// after all layout passes are complete.
    pub fn calc_abs(self) -> (r: LayoutBox)
        requires
            model::abs_fits(self@, 0, 0),
        ensures
            r@ == model::spec_calc_abs(self@),
    {
        self.traversal_calc_abs(BoxAbs { x: 0, y: 0 })
    }

    /// Give this box the absolute origin `parent_abs + box_offset +
    /// inner inset`, and recurse with that origin as the children's
    /// parent reference.
    #[verifier::loop_isolation(false)]
    pub fn traversal_calc_abs(self, parent_abs: BoxAbs) -> (r: LayoutBox)
        requires
            model::abs_fits(self@, parent_abs@.x, parent_abs@.y),
        ensures
            r@ == model::spec_resolve_abs(self@, parent_abs@.x, parent_abs@.y),
        decreases box_size(self@),
    {
        let ghost b0 = self@;
        proof {
            laws::lemma_box_size_pos(b0);
            laws::lemma_boxes_size_nonneg(b0.children);
            laws::lemma_offs_mass_nonneg(b0);
            laws::lemma_offs_mass_seq_nonneg(b0.children);
        }
        let LayoutBox { dimensions: mut d, box_type, mut children } = self;
        let ghost cs = b0.children;
        proof {
            assert(cs == box_views(children@));
            model::lemma_box_views(children@);
        }
        let ax = parent_abs.x + d.box_offset.left + d.inner.left;
        let ay = parent_abs.y + d.box_offset.top + d.inner.top;
        d.box_abs = BoxAbs { x: ax, y: ay };
        let n = children.len();
        let mut out: Vec<LayoutBox> = Vec::new();
        proof {
            assert(cs.take(0) =~= Seq::<BoxView>::empty());
            assert(box_views(out@) =~= Seq::<BoxView>::empty());
        }
        while children.len() > 0
            invariant
                children@.len() <= n,
                out@.len() == n - children@.len(),
                forall|j: int|
                    0 <= j < children@.len() ==> children@[j]@ == cs[n - children@.len() + j],
                box_views(out@) == model::resolve_abs_seq(
                    cs.take(n - children@.len()),
                    ax as int,
                    ay as int,
                ),
            decreases children.len(),
        {
            let ghost i = n as int - children@.len();
            let ghost prevvec = out@;
            let ghost kids0 = children@;
            let c = children.remove(0);
            proof {
                assert(c@ == cs[i]);
                laws::lemma_abs_fits_child(b0, parent_abs@.x, parent_abs@.y, i);
                laws::lemma_boxes_elem(cs, i);
                laws::lemma_box_size_pos(c@);
                assert forall|j: int| 0 <= j < children@.len() implies children@[j]@ == cs[n
                    - children@.len() + j] by {
                    assert(children@[j] == kids0[j + 1]);
                }
            }
            let c1 = c.traversal_calc_abs(BoxAbs { x: ax, y: ay });
            out.push(c1);
            proof {
                assert(cs.take(i + 1).drop_last() =~= cs.take(i));
                assert(cs.take(i + 1).last() == cs[i]);
                assert(out@.drop_last() =~= prevvec);
                assert(out@.last() == c1);
                assert(box_views(out@) == box_views(prevvec).push(c1@));
            }
        }
        proof {
            assert(cs.take(n as int) =~= cs);
        }
        let nb = LayoutBox { dimensions: d, box_type, children: out };
        proof {
            assert(nb@ =~= model::spec_resolve_abs(b0, parent_abs@.x, parent_abs@.y));
        }
        nb
    }
}

impl crate::style::StyledNode {
    /// The value of the `display` property (defaults to inline).
    pub(crate) fn display(&self) -> (r: Display)
        ensures
            r == model::spec_display(self@.props),
    {
        match self.value("display") {
            Some(Value::Keyword(s)) => {
                if str_eq(s.as_str(), "block") {
                    Display::Block
                } else if str_eq(s.as_str(), "inline-block") {
                    Display::InlineBlock
                } else if str_eq(s.as_str(), "none") {
                    Display::DisplayNone
                } else {
                    Display::Inline
                }
            },
            _ => Display::Inline,
        }
    }
}

/// Build the tree of layout boxes for a styled node, without any
/// layout calculations yet: children with `display: none` vanish with
/// their subtrees, and runs of inline-level children of a block-level
/// parent are grouped under anonymous blocks.  Fails exactly when the
/// root's own computed display is `none`.
#[verifier::rlimit(100)]
#[verifier::loop_isolation(false)]
pub fn build_layout_tree(style_node: &crate::style::StyledNode) -> (r: Result<
    LayoutBox,
    LayoutError,
>)
    ensures
        match r {
            Ok(b) => model::spec_build(style_node@) == Ok::<BoxView, LayoutError>(b@),
            Err(e) => model::spec_build(style_node@) == Err::<BoxView, LayoutError>(e),
        },
    decreases style_node@,
{
    let ghost s0 = style_node@;
    let d = style_node.display();
    let bt: BoxType = match d {
        Display::Block => BoxType::BlockNode(style_node.specified_values.clone()),
        Display::InlineBlock => BoxType::InlineBlockNode(style_node.specified_values.clone()),
        Display::Inline => BoxType::InlineNode(style_node.specified_values.clone()),
        Display::DisplayNone => {
            return Err(LayoutError::InvalidRoot);
        },
    };
    let direct = matches!(d, Display::Inline);
    let mut root = LayoutBox::new(bt);
    let ghost kids = s0.children;
    proof {
        crate::style::lemma_styled_views(style_node.children@);
        assert(kids == crate::style::styled_views(style_node.children@));
        assert(kids.take(0) =~= Seq::<crate::style::StyledNodeView>::empty());
        assert(box_views(root.children@) =~= Seq::<BoxView>::empty());
    }
    let n = style_node.children.len();
    let mut i: usize = 0;
    while i < n
        invariant
            i <= n,
            n == style_node.children@.len(),
            box_views(root.children@) == model::spec_build_children(kids.take(i as int), direct),
            root.box_type@ == bt@,
            root.dimensions@ == DimsV::zero(),
        decreases n - i,
    {
        let ghost prevkids = box_views(root.children@);
        let child = &style_node.children[i];
        proof {
            assert(child@ == kids[i as int]);
            assert(kids.take(i as int + 1).drop_last() =~= kids.take(i as int));
            assert(kids.take(i as int + 1).last() == kids[i as int]);
        }
        let cd = child.display();
        proof {
            assert(cd == model::spec_display(kids[i as int].props));
        }
        if matches!(cd, Display::DisplayNone) {
            // Skip nodes with `display: none`.
            proof {
                assert(box_views(root.children@) =~= model::spec_build_children(
                    kids.take(i as int + 1),
                    direct,
                ));
            }
        } else {
            let cb = match build_layout_tree(child) {
                Ok(b) => b,
                Err(e) => {
                    return Err(e);
                },
            };
            proof {
                assert(cb@ == model::spec_build_box(child@));
            }
            if matches!(cd, Display::Block) || direct {
                let ghost pre = root.children@;
                root.children.push(cb);
                proof {
                    assert(root.children@.drop_last() =~= pre);
                    assert(box_views(root.children@) == box_views(pre).push(
                        model::spec_build_box(child@),
                    ));
                    assert(box_views(root.children@) =~= model::spec_build_children(
                        kids.take(i as int + 1),
                        direct,
                    ));
                }
            } else {
                // Route the inline-level child into the trailing
                // anonymous block, creating one if needed.
                proof {
                    model::lemma_box_views(root.children@);
                }
                let need_new = root.children.len() == 0 || !matches!(
                    &root.children[root.children.len() - 1].box_type,
                    BoxType::AnonymousBlock,
                );
                if need_new {
                    let ghost pre = root.children@;
                    root.children.push(LayoutBox::new(BoxType::AnonymousBlock));
                    proof {
                        assert(root.children@.drop_last() =~= pre);
                    }
                    let mut lastb = match root.children.pop() {
                        Some(x) => x,
                        None => LayoutBox::new(BoxType::AnonymousBlock),
                    };
                    proof {
                        assert(lastb@.children == Seq::<BoxView>::empty());
                        model::lemma_box_views(lastb.children@);
                        assert(lastb.children@.len() == 0);
                    }
                    lastb.children.push(cb);
                    proof {
                        assert(lastb.children@.len() == 1);
                        assert(lastb.children@.drop_last() =~= Seq::<LayoutBox>::empty());
                        assert(box_views(lastb.children@.drop_last()) =~= Seq::<BoxView>::empty());
                        assert(box_views(lastb.children@) =~= seq![model::spec_build_box(child@)]);
                    }
                    root.children.push(lastb);
                    proof {
                        assert(root.children@.drop_last() =~= pre);
                        assert(box_views(root.children@) == box_views(pre).push(lastb@));
                        assert(lastb@ =~= BoxView {
                            box_type: model::BoxTypeV::AnonymousBlock,
                            dimensions: DimsV::zero(),
                            children: seq![model::spec_build_box(child@)],
                        });
                        assert(box_views(pre) == prevkids);
                        assert(box_views(root.children@) =~= model::spec_build_children(
                            kids.take(i as int + 1),
                            direct,
                        ));
                    }
                } else {
                    let mut lastb = match root.children.pop() {
                        Some(x) => x,
                        None => LayoutBox::new(BoxType::AnonymousBlock),
                    };
                    let ghost pre = root.children@;
                    let ghost lastv = lastb@;
                    let ghost prelast = lastb.children@;
                    lastb.children.push(cb);
                    proof {
                        assert(lastb.children@.drop_last() =~= prelast);
                        assert(box_views(lastb.children@) == box_views(prelast).push(
                            model::spec_build_box(child@),
                        ));
                    }
                    root.children.push(lastb);
                    proof {
                        assert(root.children@.drop_last() =~= pre);
                        assert(prevkids.len() > 0);
                        assert(box_views(root.children@) =~= prevkids.update(
                            prevkids.len() - 1,
                            lastb@,
                        ));
                        assert(lastb@.box_type is AnonymousBlock);
                        assert(lastb@ =~= BoxView {
                            box_type: model::BoxTypeV::AnonymousBlock,
                            dimensions: prevkids.last().dimensions,
                            children: prevkids.last().children.push(
                                model::spec_build_box(child@),
                            ),
                        });
                        assert(box_views(root.children@) =~= model::spec_build_children(
                            kids.take(i as int + 1),
                            direct,
                        ));
                    }
                }
            }
        }
        i += 1;
    }
    proof {
        assert(kids.take(n as int) =~= kids);
        assert(model::spec_build(s0) == Ok::<BoxView, LayoutError>(
            BoxView {
                box_type: bt@,
                dimensions: DimsV::zero(),
                children: model::spec_build_children(kids, direct),
            },
        ));
        assert(root@ =~= model::spec_build(s0)->Ok_0);
    }
    Ok(root)
}

} // verus!
