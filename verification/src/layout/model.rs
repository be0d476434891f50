//! The mathematical model of the layout engine.
//!
//! Every executable structure has a ghost mirror over unbounded
//! integers, and the whole layout pass is specified by the recursive
//! function [`spec_layout`]; the executable engine is proved to return
//! exactly its value.

use vstd::prelude::*;
use crate::css::{Unit, ValueView};
use crate::style::spec_lookup;
use super::{
    BoxAbs, BoxOffset, BoxType, Dimensions, Display, EdgeSizes, InnerContent, LayoutBox,
    LayoutError, Rect,
};

verus! {

broadcast use {
    vstd::std_specs::vec::axiom_vec_index_decreases,
    vstd::std_specs::vec::axiom_vec_decreases_to_view,
};

/// Pixel magnitudes handed to the engine stay below this bound; it
/// leaves ample headroom in a machine word for the sums the engine
/// forms.
pub const PX_LIMIT: i64 = 0x0100_0000_0000_0000;

/// Whether an unbounded integer fits the machine word used for pixels.
pub open spec fn in_px_range(x: int) -> bool {
    i64::MIN <= x <= i64::MAX
}

/// Absolute value.
pub open spec fn iabs(x: int) -> int {
    if x < 0 {
        -x
    } else {
        x
    }
}

/// Maximum of two integers.
pub open spec fn imax(a: int, b: int) -> int {
    if a >= b {
        a
    } else {
        b
    }
}

// ---------------------------------------------------------------------
// Ghost mirrors of the geometry types.
// ---------------------------------------------------------------------

pub ghost struct InnerV {
    pub left: int,
    pub top: int,
    pub width: int,
    pub height: int,
}

pub ghost struct EdgesV {
    pub left: int,
    pub right: int,
    pub top: int,
    pub bottom: int,
}

pub ghost struct OffsetV {
    pub left: int,
    pub top: int,
}

pub ghost struct AbsV {
    pub x: int,
    pub y: int,
}

pub ghost struct DimsV {
    pub inner: InnerV,
    pub padding: EdgesV,
    pub border: EdgesV,
    pub margin: EdgesV,
    pub box_offset: OffsetV,
    pub box_abs: AbsV,
}

pub ghost struct RectV {
    pub x: int,
    pub y: int,
    pub width: int,
    pub height: int,
}

impl EdgesV {
    pub open spec fn zero() -> EdgesV {
        EdgesV { left: 0, right: 0, top: 0, bottom: 0 }
    }
}

impl DimsV {
    pub open spec fn zero() -> DimsV {
        DimsV {
            inner: InnerV { left: 0, top: 0, width: 0, height: 0 },
            padding: EdgesV::zero(),
            border: EdgesV::zero(),
            margin: EdgesV::zero(),
            box_offset: OffsetV { left: 0, top: 0 },
            box_abs: AbsV { x: 0, y: 0 },
        }
    }
}

impl View for InnerContent {
    type V = InnerV;

    open spec fn view(&self) -> InnerV {
        InnerV {
            left: self.left as int,
            top: self.top as int,
            width: self.width as int,
            height: self.height as int,
        }
    }
}

impl View for EdgeSizes {
    type V = EdgesV;

    open spec fn view(&self) -> EdgesV {
        EdgesV {
            left: self.left as int,
            right: self.right as int,
            top: self.top as int,
            bottom: self.bottom as int,
        }
    }
}

impl View for BoxOffset {
    type V = OffsetV;

    open spec fn view(&self) -> OffsetV {
        OffsetV { left: self.left as int, top: self.top as int }
    }
}

impl View for BoxAbs {
    type V = AbsV;

    open spec fn view(&self) -> AbsV {
        AbsV { x: self.x as int, y: self.y as int }
    }
}

impl View for Dimensions {
    type V = DimsV;

    open spec fn view(&self) -> DimsV {
        DimsV {
            inner: self.inner@,
            padding: self.padding@,
            border: self.border@,
            margin: self.margin@,
            box_offset: self.box_offset@,
            box_abs: self.box_abs@,
        }
    }
}

impl View for Rect {
    type V = RectV;

    open spec fn view(&self) -> RectV {
        RectV {
            x: self.x as int,
            y: self.y as int,
            width: self.width as int,
            height: self.height as int,
        }
    }
}

// ---------------------------------------------------------------------
// Ghost mirror of the box tree.
// ---------------------------------------------------------------------

pub ghost enum BoxTypeV {
    BlockNode(Map<Seq<char>, ValueView>),
    InlineBlockNode(Map<Seq<char>, ValueView>),
    InlineNode(Map<Seq<char>, ValueView>),
    AnonymousBlock,
}

#[verifier::ext_equal]
pub ghost struct BoxView {
    pub box_type: BoxTypeV,
    pub dimensions: DimsV,
    pub children: Seq<BoxView>,
}

impl View for BoxType {
    type V = BoxTypeV;

    open spec fn view(&self) -> BoxTypeV {
        match self {
            BoxType::BlockNode(p) => BoxTypeV::BlockNode(p@),
            BoxType::InlineBlockNode(p) => BoxTypeV::InlineBlockNode(p@),
            BoxType::InlineNode(p) => BoxTypeV::InlineNode(p@),
            BoxType::AnonymousBlock => BoxTypeV::AnonymousBlock,
        }
    }
}

impl View for LayoutBox {
    type V = BoxView;

    open spec fn view(&self) -> BoxView
        decreases self,
    {
        BoxView {
            box_type: self.box_type@,
            dimensions: self.dimensions@,
            children: box_views(self.children@),
        }
    }
}

/// The views of a sequence of layout boxes, in order.
pub open spec fn box_views(s: Seq<LayoutBox>) -> Seq<BoxView>
    decreases s,
{
    if s.len() == 0 {
        Seq::empty()
    } else {
        box_views(s.drop_last()).push(s.last()@)
    }
}

/// `box_views` maps each box to its view, position by position.
pub broadcast proof fn lemma_box_views(s: Seq<LayoutBox>)
    ensures
        (#[trigger] box_views(s)).len() == s.len(),
        forall|i: int| 0 <= i < s.len() ==> box_views(s)[i] == s[i]@,
    decreases s,
{
    if s.len() > 0 {
        lemma_box_views(s.drop_last());
        assert(box_views(s) == box_views(s.drop_last()).push(s.last()@));
        assert forall|i: int| 0 <= i < s.len() implies box_views(s)[i] == s[i]@ by {
            if i < s.len() - 1 {
                assert(s.drop_last()[i] == s[i]);
            }
        }
    }
}

impl BoxTypeV {
    /// The style carried by the box; anonymous blocks carry none.
    pub open spec fn props(self) -> Map<Seq<char>, ValueView> {
        match self {
            BoxTypeV::BlockNode(p) => p,
            BoxTypeV::InlineBlockNode(p) => p,
            BoxTypeV::InlineNode(p) => p,
            BoxTypeV::AnonymousBlock => Map::empty(),
        }
    }

    pub open spec fn has_style(self) -> bool {
        !(self is AnonymousBlock)
    }
}

// ---------------------------------------------------------------------
// Style accessors.
// ---------------------------------------------------------------------

pub open spec fn zero_len_v() -> ValueView {
    ValueView::Length(0, Unit::Px)
}

pub open spec fn auto_v() -> ValueView {
    ValueView::Keyword("auto"@)
}

#[verifier::opaque]
pub open spec fn width_v(props: Map<Seq<char>, ValueView>) -> ValueView {
    if props.contains_key("width"@) {
        props["width"@]
    } else {
        auto_v()
    }
}

#[verifier::opaque]
pub open spec fn height_v(props: Map<Seq<char>, ValueView>) -> ValueView {
    if props.contains_key("height"@) {
        props["height"@]
    } else {
        auto_v()
    }
}

#[verifier::opaque]
pub open spec fn ml_v(props: Map<Seq<char>, ValueView>) -> ValueView {
    spec_lookup(props, "margin-left"@, "margin"@, zero_len_v())
}

#[verifier::opaque]
pub open spec fn mr_v(props: Map<Seq<char>, ValueView>) -> ValueView {
    spec_lookup(props, "margin-right"@, "margin"@, zero_len_v())
}

#[verifier::opaque]
pub open spec fn mt_v(props: Map<Seq<char>, ValueView>) -> ValueView {
    spec_lookup(props, "margin-top"@, "margin"@, zero_len_v())
}

#[verifier::opaque]
pub open spec fn mb_v(props: Map<Seq<char>, ValueView>) -> ValueView {
    spec_lookup(props, "margin-bottom"@, "margin"@, zero_len_v())
}

#[verifier::opaque]
pub open spec fn bl_v(props: Map<Seq<char>, ValueView>) -> ValueView {
    spec_lookup(props, "border-left-width"@, "border-width"@, zero_len_v())
}

#[verifier::opaque]
pub open spec fn br_v(props: Map<Seq<char>, ValueView>) -> ValueView {
    spec_lookup(props, "border-right-width"@, "border-width"@, zero_len_v())
}

#[verifier::opaque]
pub open spec fn bt_v(props: Map<Seq<char>, ValueView>) -> ValueView {
    spec_lookup(props, "border-top-width"@, "border-width"@, zero_len_v())
}

#[verifier::opaque]
pub open spec fn bb_v(props: Map<Seq<char>, ValueView>) -> ValueView {
    spec_lookup(props, "border-bottom-width"@, "border-width"@, zero_len_v())
}

#[verifier::opaque]
pub open spec fn pl_v(props: Map<Seq<char>, ValueView>) -> ValueView {
    spec_lookup(props, "padding-left"@, "padding"@, zero_len_v())
}

#[verifier::opaque]
pub open spec fn pr_v(props: Map<Seq<char>, ValueView>) -> ValueView {
    spec_lookup(props, "padding-right"@, "padding"@, zero_len_v())
}

#[verifier::opaque]
pub open spec fn pt_v(props: Map<Seq<char>, ValueView>) -> ValueView {
    spec_lookup(props, "padding-top"@, "padding"@, zero_len_v())
}

#[verifier::opaque]
pub open spec fn pb_v(props: Map<Seq<char>, ValueView>) -> ValueView {
    spec_lookup(props, "padding-bottom"@, "padding"@, zero_len_v())
}

#[verifier::opaque]
pub open spec fn msw_v(props: Map<Seq<char>, ValueView>) -> ValueView {
    spec_lookup(props, "measure-width"@, "ms-width"@, zero_len_v())
}

#[verifier::opaque]
pub open spec fn msh_v(props: Map<Seq<char>, ValueView>) -> ValueView {
    spec_lookup(props, "measure-height"@, "ms-height"@, zero_len_v())
}

/// The node's computed `display` value: the recognized keywords, with
/// everything else (including a missing declaration) counting as
/// `inline`.
pub open spec fn spec_display(props: Map<Seq<char>, ValueView>) -> Display {
    if props.contains_key("display"@) {
        match props["display"@] {
            ValueView::Keyword(k) => if k == "block"@ {
                Display::Block
            } else if k == "inline-block"@ {
                Display::InlineBlock
            } else if k == "none"@ {
                Display::DisplayNone
            } else {
                Display::Inline
            },
            _ => Display::Inline,
        }
    } else {
        Display::Inline
    }
}

/// Every size the flow layout of a block or inline-block box reads is
/// a length or `auto`.
pub open spec fn flow_sizing_ok(props: Map<Seq<char>, ValueView>) -> bool {
    &&& width_v(props).is_sizing()
    &&& height_v(props).is_sizing()
    &&& ml_v(props).is_sizing()
    &&& mr_v(props).is_sizing()
    &&& mt_v(props).is_sizing()
    &&& mb_v(props).is_sizing()
    &&& bl_v(props).is_sizing()
    &&& br_v(props).is_sizing()
    &&& bt_v(props).is_sizing()
    &&& bb_v(props).is_sizing()
    &&& pl_v(props).is_sizing()
    &&& pr_v(props).is_sizing()
    &&& pt_v(props).is_sizing()
    &&& pb_v(props).is_sizing()
}

/// Every size the intrinsic layout of an inline box reads is a length
/// or `auto`.
pub open spec fn inline_sizing_ok(props: Map<Seq<char>, ValueView>) -> bool {
    &&& msw_v(props).is_sizing()
    &&& msh_v(props).is_sizing()
}

// ---------------------------------------------------------------------
// Mass and size: the fuel of the overflow and termination arguments.
// ---------------------------------------------------------------------

/// The total pixel magnitude a single style can contribute to layout.
#[verifier::opaque]
pub open spec fn props_mass(props: Map<Seq<char>, ValueView>) -> int {
    iabs(width_v(props).px_or_zero()) + iabs(height_v(props).px_or_zero()) + iabs(
        ml_v(props).px_or_zero(),
    ) + iabs(mr_v(props).px_or_zero()) + iabs(mt_v(props).px_or_zero()) + iabs(
        mb_v(props).px_or_zero(),
    ) + iabs(bl_v(props).px_or_zero()) + iabs(br_v(props).px_or_zero()) + iabs(
        bt_v(props).px_or_zero(),
    ) + iabs(bb_v(props).px_or_zero()) + iabs(pl_v(props).px_or_zero()) + iabs(
        pr_v(props).px_or_zero(),
    ) + iabs(pt_v(props).px_or_zero()) + iabs(pb_v(props).px_or_zero()) + iabs(
        msw_v(props).px_or_zero(),
    ) + iabs(msh_v(props).px_or_zero())
}

pub open spec fn kind_mass(bt: BoxTypeV) -> int {
    if bt.has_style() {
        props_mass(bt.props())
    } else {
        0
    }
}

/// The total pixel magnitude a subtree can contribute to layout.
pub open spec fn box_mass(b: BoxView) -> int
    decreases b, 1int,
{
    kind_mass(b.box_type) + boxes_mass(b.children)
}

pub open spec fn boxes_mass(s: Seq<BoxView>) -> int
    decreases s, 0int,
{
    if s.len() == 0 {
        0
    } else {
        boxes_mass(s.drop_last()) + box_mass(s.last())
    }
}

/// The number of boxes in a subtree.
pub open spec fn box_size(b: BoxView) -> int
    decreases b, 1int,
{
    1 + boxes_size(b.children)
}

pub open spec fn boxes_size(s: Seq<BoxView>) -> int
    decreases s, 0int,
{
    if s.len() == 0 {
        0
    } else {
        boxes_size(s.drop_last()) + box_size(s.last())
    }
}

// ---------------------------------------------------------------------
// Derived geometry.
// ---------------------------------------------------------------------

pub open spec fn margin_width_v(d: DimsV) -> int {
    d.inner.width + d.padding.left + d.padding.right + d.border.left + d.border.right
        + d.margin.left + d.margin.right
}

pub open spec fn margin_height_v(d: DimsV) -> int {
    d.inner.height + d.padding.top + d.padding.bottom + d.border.top + d.border.bottom
        + d.margin.top + d.margin.bottom
}

/// The width-side magnitudes of a box's own geometry, summed.
pub open spec fn wsum(d: DimsV) -> int {
    iabs(d.inner.width) + iabs(d.padding.left) + iabs(d.padding.right) + iabs(d.border.left)
        + iabs(d.border.right) + iabs(d.margin.left) + iabs(d.margin.right)
}

/// The height-side magnitudes of a box's own geometry, summed.
pub open spec fn hsum(d: DimsV) -> int {
    iabs(d.inner.height) + iabs(d.padding.top) + iabs(d.padding.bottom) + iabs(d.border.top)
        + iabs(d.border.bottom) + iabs(d.margin.top) + iabs(d.margin.bottom)
}

pub open spec fn get_left_v(d: DimsV) -> int {
    d.box_offset.left + d.inner.left
}

pub open spec fn get_top_v(d: DimsV) -> int {
    d.box_offset.top + d.inner.top
}

pub open spec fn expand_rect(r: RectV, e: EdgesV) -> RectV {
    RectV {
        x: r.x - e.left,
        y: r.y - e.top,
        width: r.width + e.left + e.right,
        height: r.height + e.top + e.bottom,
    }
}

/// The machine can form this expansion without leaving the pixel word.
pub open spec fn expand_fits(r: RectV, e: EdgesV) -> bool {
    &&& in_px_range(r.x - e.left)
    &&& in_px_range(r.y - e.top)
    &&& in_px_range(r.width + e.left)
    &&& in_px_range(r.width + e.left + e.right)
    &&& in_px_range(r.height + e.top)
    &&& in_px_range(r.height + e.top + e.bottom)
}

pub open spec fn abs_content_rect(d: DimsV) -> RectV {
    RectV { x: d.box_abs.x, y: d.box_abs.y, width: d.inner.width, height: d.inner.height }
}

pub open spec fn padding_rect(d: DimsV) -> RectV {
    expand_rect(abs_content_rect(d), d.padding)
}

pub open spec fn border_rect(d: DimsV) -> RectV {
    expand_rect(padding_rect(d), d.border)
}

pub open spec fn margin_rect(d: DimsV) -> RectV {
    expand_rect(border_rect(d), d.margin)
}

// ---------------------------------------------------------------------
// Width and margin resolution (the underflow policy).
// ---------------------------------------------------------------------

/// Resolve content width and horizontal margins against a specific
/// container width `c`.  `sum_bp` is the total of the used border and
/// padding widths.  Exactly one degree of freedom absorbs the
/// underflow:
/// - nothing auto: the right margin absorbs it;
/// - exactly one of width / margin-left / margin-right auto: that one
///   absorbs it (auto margins are first forced to 0 when the declared
///   total already overflows the container);
/// - width auto: auto margins become 0, the width becomes the
///   underflow clamped to 0, and a negative remainder goes into the
///   right margin;
/// - both margins auto with a fixed width: the underflow is split
///   evenly.
///
/// Returns `(width, margin_left, margin_right)` in pixels.
#[verifier::opaque]
pub open spec fn resolve_width(
    w_v: ValueView,
    ml: ValueView,
    mr: ValueView,
    sum_bp: int,
    c: int,
) -> (int, int, int) {
    let w0 = w_v.px_or_zero();
    let ml0 = ml.px_or_zero();
    let mr0 = mr.px_or_zero();
    let total = ml0 + mr0 + sum_bp + w0;
    let u = c - total;
    if w_v.is_auto() {
        if u >= 0 {
            (u, ml0, mr0)
        } else {
            (0, ml0, mr0 + u)
        }
    } else {
        let ml_auto = ml.is_auto() && total <= c;
        let mr_auto = mr.is_auto() && total <= c;
        if ml_auto && mr_auto {
            (w0, u / 2, u / 2)
        } else if ml_auto {
            (w0, u, mr0)
        } else if mr_auto {
            (w0, ml0, u)
        } else {
            (w0, ml0, mr0 + u)
        }
    }
}

/// The geometry a flow box ends up with, around the given resolved
/// sizes; the box's own offset and absolute origin are untouched by
/// layout.
pub open spec fn flow_dims(
    b: BoxView,
    w: int,
    h: int,
    ml: int,
    mr: int,
    mt: int,
    mb: int,
    bl: int,
    br: int,
    bt: int,
    bb: int,
    pl: int,
    pr: int,
    pt: int,
    pb: int,
) -> DimsV {
    DimsV {
        inner: InnerV { left: ml + bl + pl, top: mt + bt + pt, width: w, height: h },
        padding: EdgesV { left: pl, right: pr, top: pt, bottom: pb },
        border: EdgesV { left: bl, right: br, top: bt, bottom: bb },
        margin: EdgesV { left: ml, right: mr, top: mt, bottom: mb },
        box_offset: b.dimensions.box_offset,
        box_abs: b.dimensions.box_abs,
    }
}

/// Replace a box's offset from its parent.
pub open spec fn set_offset(b: BoxView, left: int, top: int) -> BoxView {
    BoxView {
        box_type: b.box_type,
        dimensions: DimsV {
            inner: b.dimensions.inner,
            padding: b.dimensions.padding,
            border: b.dimensions.border,
            margin: b.dimensions.margin,
            box_offset: OffsetV { left: left, top: top },
            box_abs: b.dimensions.box_abs,
        },
        children: b.children,
    }
}

/// A child participates in the fill pass when it is not anonymous and
/// its own width is auto.
pub open spec fn needs_relayout(b: BoxView) -> bool {
    b.box_type.has_style() && width_v(b.box_type.props()).is_auto()
}

/// Accumulator of the vertical stacking pass: the laid-out children,
/// the running sum of their margin-box heights, and the widest
/// margin box seen.
pub ghost struct StackState {
    pub out: Seq<BoxView>,
    pub sum_h: int,
    pub max_w: int,
}

/// Accumulator of the inline line-wrapping pass.
pub ghost struct LinesState {
    pub out: Seq<BoxView>,
    pub lines_h: int,
    pub lines_w: int,
    pub cur_w: int,
    pub cur_h: int,
}

// ---------------------------------------------------------------------
// The layout pass.
// ---------------------------------------------------------------------

/// Lay out a box against `cw`, the width of its containing block (or
/// `auto` when unknown), and `kw`, the hard constraint width for
/// shrink-to-fit measurement.  Fails exactly when some box reached by
/// the pass carries a sizing property that is neither a length nor
/// `auto`.
pub open spec fn spec_layout(b: BoxView, cw: ValueView, kw: ValueView) -> Result<
    BoxView,
    LayoutError,
>
    decreases b, 3int,
{
    match b.box_type {
        BoxTypeV::BlockNode(_) => spec_layout_flow(b, cw, kw),
        BoxTypeV::InlineBlockNode(_) => spec_layout_flow(b, cw, kw),
        BoxTypeV::InlineNode(props) => spec_layout_inline(b, props),
        BoxTypeV::AnonymousBlock => spec_layout_anonymous(b, kw),
    }
}

/// An inline box contributes a fixed measured size and takes no part
/// in container-driven width resolution; its children are left alone.
pub open spec fn spec_layout_inline(b: BoxView, props: Map<Seq<char>, ValueView>) -> Result<
    BoxView,
    LayoutError,
> {
    if inline_sizing_ok(props) {
        Ok(
            BoxView {
                box_type: b.box_type,
                dimensions: DimsV {
                    inner: InnerV {
                        left: 0,
                        top: 0,
                        width: msw_v(props).px_or_zero(),
                        height: msh_v(props).px_or_zero(),
                    },
                    padding: EdgesV::zero(),
                    border: EdgesV::zero(),
                    margin: EdgesV::zero(),
                    box_offset: b.dimensions.box_offset,
                    box_abs: b.dimensions.box_abs,
                },
                children: b.children,
            },
        )
    } else {
        Err(LayoutError::MalformedLength)
    }
}

/// Width/margin resolution, vertical stacking, and height resolution
/// for a block or inline-block box.
pub open spec fn spec_layout_flow(b: BoxView, cw: ValueView, kw: ValueView) -> Result<
    BoxView,
    LayoutError,
>
    decreases b, 2int,
{
    let props = b.box_type.props();
    if !flow_sizing_ok(props) {
        Err(LayoutError::MalformedLength)
    } else {
        let w_v = width_v(props);
        let ml0 = ml_v(props).px_or_zero();
        let mr0 = mr_v(props).px_or_zero();
        let bl = bl_v(props).px_or_zero();
        let br = br_v(props).px_or_zero();
        let pl = pl_v(props).px_or_zero();
        let pr = pr_v(props).px_or_zero();
        let mt = mt_v(props).px_or_zero();
        let mb = mb_v(props).px_or_zero();
        let bt = bt_v(props).px_or_zero();
        let bb = bb_v(props).px_or_zero();
        let pt = pt_v(props).px_or_zero();
        let pb = pb_v(props).px_or_zero();
        let sum_bp = bl + br + pl + pr;
        if w_v.is_specific_length() || cw.is_specific_length() {
            let rw = if cw.is_specific_length() {
                resolve_width(w_v, ml_v(props), mr_v(props), sum_bp, cw.px_or_zero())
            } else {
                (w_v.px_or_zero(), ml0, mr0)
            };
            let cpass = ValueView::Length(rw.0, Unit::Px);
            match stack_flow(b.children, cpass, cpass) {
                Err(e) => Err(e),
                Ok(st) => {
                    let h = if height_v(props).is_specific_length() {
                        height_v(props).px_or_zero()
                    } else {
                        st.sum_h
                    };
                    Ok(
                        BoxView {
                            box_type: b.box_type,
                            dimensions: flow_dims(
                                b,
                                rw.0,
                                h,
                                rw.1,
                                rw.2,
                                mt,
                                mb,
                                bl,
                                br,
                                bt,
                                bb,
                                pl,
                                pr,
                                pt,
                                pb,
                            ),
                            children: st.out,
                        },
                    )
                },
            }
        } else {
            // Width auto under an auto container: measure the children
            // against the constraint, fix the width from their extent,
            // then let auto children fill the final width.
            let kpass = ValueView::Length(kw.px_or_zero() - (ml0 + mr0 + sum_bp), Unit::Px);
            match stack_flow(b.children, auto_v(), kpass) {
                Err(e) => Err(e),
                Ok(st) => {
                    let h = if height_v(props).is_specific_length() {
                        height_v(props).px_or_zero()
                    } else {
                        st.sum_h
                    };
                    let w = st.max_w;
                    let c2 = w - (ml0 + mr0 + sum_bp);
                    match relayout_seq(b.children, st.out, c2) {
                        Err(e) => Err(e),
                        Ok(cs2) => Ok(
                            BoxView {
                                box_type: b.box_type,
                                dimensions: flow_dims(
                                    b,
                                    w,
                                    h,
                                    ml0,
                                    mr0,
                                    mt,
                                    mb,
                                    bl,
                                    br,
                                    bt,
                                    bb,
                                    pl,
                                    pr,
                                    pt,
                                    pb,
                                ),
                                children: cs2,
                            },
                        ),
                    }
                },
            }
        }
    }
}

/// Lay out children in order against `(cpass, kpass)`, stacking them
/// vertically: each child sits below the margin boxes of its earlier
/// siblings.
pub open spec fn stack_flow(cs: Seq<BoxView>, cpass: ValueView, kpass: ValueView) -> Result<
    StackState,
    LayoutError,
>
    decreases cs, 1int,
{
    if cs.len() == 0 {
        Ok(StackState { out: Seq::empty(), sum_h: 0, max_w: 0 })
    } else {
        match stack_flow(cs.drop_last(), cpass, kpass) {
            Err(e) => Err(e),
            Ok(prev) => match spec_layout(cs.last(), cpass, kpass) {
                Err(e) => Err(e),
                Ok(c1) => {
                    let placed = set_offset(c1, 0, prev.sum_h);
                    Ok(
                        StackState {
                            out: prev.out.push(placed),
                            sum_h: prev.sum_h + margin_height_v(placed.dimensions),
                            max_w: imax(prev.max_w, margin_width_v(placed.dimensions)),
                        },
                    )
                },
            },
        }
    }
}

/// The fill pass: children with auto width (and a style of their own)
/// are laid out once more against the now-known container width `c2`,
/// keeping the offsets the stacking pass gave them.
pub open spec fn relayout_seq(orig: Seq<BoxView>, laid: Seq<BoxView>, c2: int) -> Result<
    Seq<BoxView>,
    LayoutError,
>
    decreases orig, 1int,
{
    if orig.len() == 0 || laid.len() == 0 {
        Ok(Seq::empty())
    } else {
        match relayout_seq(orig.drop_last(), laid.drop_last(), c2) {
            Err(e) => Err(e),
            Ok(prev) => {
                if needs_relayout(orig.last()) {
                    let c2v = ValueView::Length(c2, Unit::Px);
                    match spec_layout(orig.last(), c2v, c2v) {
                        Err(e) => Err(e),
                        Ok(nb) => Ok(
                            prev.push(
                                set_offset(
                                    nb,
                                    laid.last().dimensions.box_offset.left,
                                    laid.last().dimensions.box_offset.top,
                                ),
                            ),
                        ),
                    }
                } else {
                    Ok(prev.push(laid.last()))
                }
            },
        }
    }
}

/// An anonymous block hosts a run of inline-level children, wrapping
/// them into lines no wider than the constraint `kw` (except a single
/// child wider than the constraint, which takes a line of its own).
pub open spec fn spec_layout_anonymous(b: BoxView, kw: ValueView) -> Result<BoxView, LayoutError>
    decreases b, 2int,
{
    match lines_stack(b.children, kw, kw.px_or_zero()) {
        Err(e) => Err(e),
        Ok(st) => Ok(
            BoxView {
                box_type: b.box_type,
                dimensions: DimsV {
                    inner: InnerV {
                        left: 0,
                        top: 0,
                        width: imax(st.lines_w, st.cur_w),
                        height: st.lines_h + st.cur_h,
                    },
                    padding: EdgesV::zero(),
                    border: EdgesV::zero(),
                    margin: EdgesV::zero(),
                    box_offset: b.dimensions.box_offset,
                    box_abs: b.dimensions.box_abs,
                },
                children: st.out,
            },
        ),
    }
}

/// Lay out inline-run children in order, wrapping: when a child would
/// push the current line past the constraint `w`, the line is
/// committed (its height is the tallest margin box on it) and the
/// child starts the next line.
pub open spec fn lines_stack(cs: Seq<BoxView>, kw: ValueView, w: int) -> Result<
    LinesState,
    LayoutError,
>
    decreases cs, 1int,
{
    if cs.len() == 0 {
        Ok(LinesState { out: Seq::empty(), lines_h: 0, lines_w: 0, cur_w: 0, cur_h: 0 })
    } else {
        match lines_stack(cs.drop_last(), kw, w) {
            Err(e) => Err(e),
            Ok(prev) => match spec_layout(cs.last(), auto_v(), kw) {
                Err(e) => Err(e),
                Ok(c1) => {
                    let mw = margin_width_v(c1.dimensions);
                    let mh = margin_height_v(c1.dimensions);
                    if prev.cur_w + mw > w {
                        let committed_h = prev.lines_h + prev.cur_h;
                        let placed = set_offset(c1, 0, committed_h);
                        Ok(
                            LinesState {
                                out: prev.out.push(placed),
                                lines_h: committed_h,
                                lines_w: imax(prev.lines_w, prev.cur_w),
                                cur_w: mw,
                                cur_h: imax(0, mh),
                            },
                        )
                    } else {
                        let placed = set_offset(c1, prev.cur_w, prev.lines_h);
                        Ok(
                            LinesState {
                                out: prev.out.push(placed),
                                lines_h: prev.lines_h,
                                lines_w: prev.lines_w,
                                cur_w: prev.cur_w + mw,
                                cur_h: imax(prev.cur_h, mh),
                            },
                        )
                    }
                },
            },
        }
    }
}

// ---------------------------------------------------------------------
// Box tree construction.
// ---------------------------------------------------------------------

/// The box a styled node with a renderable display value becomes.
/// Children with `display: none` vanish with their subtrees; runs of
/// inline-level children of a block-level parent are grouped under
/// anonymous blocks.
pub open spec fn spec_build_box(s: crate::style::StyledNodeView) -> BoxView
    decreases s, 1int,
{
    let d = spec_display(s.props);
    let direct = !(d is Block || d is InlineBlock);
    BoxView {
        box_type: match d {
            Display::Block => BoxTypeV::BlockNode(s.props),
            Display::InlineBlock => BoxTypeV::InlineBlockNode(s.props),
            _ => BoxTypeV::InlineNode(s.props),
        },
        dimensions: DimsV::zero(),
        children: spec_build_children(s.children, direct),
    }
}

/// Build the child boxes of a node.  With `direct` set (an inline
/// parent), inline-level children attach directly; otherwise they are
/// routed into the trailing anonymous block, which is created on
/// demand.
pub open spec fn spec_build_children(s: Seq<crate::style::StyledNodeView>, direct: bool) -> Seq<
    BoxView,
>
    decreases s, 2int,
{
    if s.len() == 0 {
        Seq::empty()
    } else {
        let prev = spec_build_children(s.drop_last(), direct);
        let c = s.last();
        match spec_display(c.props) {
            Display::DisplayNone => prev,
            Display::Block => prev.push(spec_build_box(c)),
            _ => {
                if direct {
                    prev.push(spec_build_box(c))
                } else if prev.len() > 0 && prev.last().box_type is AnonymousBlock {
                    prev.update(
                        prev.len() - 1,
                        BoxView {
                            box_type: BoxTypeV::AnonymousBlock,
                            dimensions: prev.last().dimensions,
                            children: prev.last().children.push(spec_build_box(c)),
                        },
                    )
                } else {
                    prev.push(
                        BoxView {
                            box_type: BoxTypeV::AnonymousBlock,
                            dimensions: DimsV::zero(),
                            children: seq![spec_build_box(c)],
                        },
                    )
                }
            },
        }
    }
}

/// Build the layout tree of a styled node: fails exactly when the
/// root's computed display is `none`.
pub open spec fn spec_build(s: crate::style::StyledNodeView) -> Result<BoxView, LayoutError> {
    if spec_display(s.props) is DisplayNone {
        Err(LayoutError::InvalidRoot)
    } else {
        Ok(spec_build_box(s))
    }
}

// ---------------------------------------------------------------------
// The position resolver.
// ---------------------------------------------------------------------

/// Give the box its absolute origin `parent + box_offset + inner
/// inset`, and recurse with that origin as the children's parent
/// reference.
pub open spec fn spec_resolve_abs(b: BoxView, px: int, py: int) -> BoxView
    decreases b, 1int,
{
    let ax = px + get_left_v(b.dimensions);
    let ay = py + get_top_v(b.dimensions);
    BoxView {
        box_type: b.box_type,
        dimensions: DimsV {
            inner: b.dimensions.inner,
            padding: b.dimensions.padding,
            border: b.dimensions.border,
            margin: b.dimensions.margin,
            box_offset: b.dimensions.box_offset,
            box_abs: AbsV { x: ax, y: ay },
        },
        children: resolve_abs_seq(b.children, ax, ay),
    }
}

pub open spec fn resolve_abs_seq(cs: Seq<BoxView>, px: int, py: int) -> Seq<BoxView>
    decreases cs, 0int,
{
    if cs.len() == 0 {
        Seq::empty()
    } else {
        resolve_abs_seq(cs.drop_last(), px, py).push(spec_resolve_abs(cs.last(), px, py))
    }
}

/// The root's absolute origin is its own offset plus inner inset, with
/// no parent to add.
pub open spec fn spec_calc_abs(b: BoxView) -> BoxView {
    spec_resolve_abs(b, 0, 0)
}

// ---------------------------------------------------------------------
// The machine-limit precondition.
// ---------------------------------------------------------------------

pub open spec fn px_abs(v: ValueView) -> int {
    iabs(v.px_or_zero())
}

/// The budget consumed by laying `b` out against `(cw, kw)`.  It
/// shrinks (or holds) along every recursive call the pass makes, so a
/// bound on it at the root bounds every sum the machine forms.
pub open spec fn fit_budget(b: BoxView, cw: ValueView, kw: ValueView) -> int {
    imax(imax(px_abs(cw), px_abs(kw)), 2 * box_mass(b)) + 2 * box_mass(b)
}

/// The machine-word precondition of the layout pass.
pub open spec fn layout_fits(b: BoxView, cw: ValueView, kw: ValueView) -> bool {
    fit_budget(b, cw, kw) <= PX_LIMIT as int
}

/// The offset-and-inset magnitude of a whole tree: what the position
/// resolver can accumulate along any root-to-leaf path.
pub open spec fn offs_mass(b: BoxView) -> int
    decreases b, 1int,
{
    iabs(b.dimensions.box_offset.left) + iabs(b.dimensions.box_offset.top) + iabs(
        b.dimensions.inner.left,
    ) + iabs(b.dimensions.inner.top) + offs_mass_seq(b.children)
}

pub open spec fn offs_mass_seq(cs: Seq<BoxView>) -> int
    decreases cs, 0int,
{
    if cs.len() == 0 {
        0
    } else {
        offs_mass_seq(cs.drop_last()) + offs_mass(cs.last())
    }
}

/// Every sizing property the layout pass will read in the subtree is
/// a length or `auto`: on flow boxes the full sizing set and then the
/// children; on anonymous blocks the children; on inline boxes their
/// measured sizes alone (their children are not visited).
pub open spec fn tree_sizing_ok(b: BoxView) -> bool
    decreases b, 1int,
{
    match b.box_type {
        BoxTypeV::InlineNode(props) => inline_sizing_ok(props),
        BoxTypeV::AnonymousBlock => seq_sizing_ok(b.children),
        _ => flow_sizing_ok(b.box_type.props()) && seq_sizing_ok(b.children),
    }
}

pub open spec fn seq_sizing_ok(cs: Seq<BoxView>) -> bool
    decreases cs, 0int,
{
    cs.len() == 0 || (seq_sizing_ok(cs.drop_last()) && tree_sizing_ok(cs.last()))
}

/// The machine-word precondition of the position resolver: the parent
/// origin plus everything a root-to-leaf path can accumulate stays
/// within the pixel word.
pub open spec fn abs_fits(b: BoxView, px: int, py: int) -> bool {
    imax(iabs(px), iabs(py)) + offs_mass(b) <= PX_LIMIT as int
}

} // verus!
