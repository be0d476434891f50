//! Laws of the layout model: non-negativity and decomposition of the
//! mass measure, preservation of the tree skeleton by layout, bounds
//! on the geometry layout produces, and the congruence law from which
//! idempotence of layout follows.

use vstd::prelude::*;
use crate::css::ValueView;
use super::LayoutError;
use super::model::{
    auto_v, bl_v, box_mass, box_size, boxes_mass, boxes_size, br_v, flow_sizing_ok, height_v,
    bb_v, bt_v, hsum, iabs, imax, inline_sizing_ok, lines_stack, margin_height_v,
    margin_width_v, mb_v, ml_v, mr_v, msh_v, msw_v, mt_v, needs_relayout, pb_v, pl_v, pr_v,
    props_mass, pt_v, relayout_seq, resolve_width,
    set_offset, spec_layout, stack_flow, width_v, wsum, BoxTypeV, BoxView, LinesState, OffsetV,
    StackState,
};

verus! {

// ---------------------------------------------------------------------
// Mass and size.
// ---------------------------------------------------------------------

/// What one style weighs: never negative, and at least each of its
/// component magnitudes.
#[verifier::rlimit(80)]
pub proof fn lemma_props_mass(props: Map<Seq<char>, ValueView>)
    ensures
        props_mass(props) >= 0,
        props_mass(props) >= iabs(width_v(props).px_or_zero()) + iabs(
            height_v(props).px_or_zero(),
        ),
        props_mass(props) >= iabs(ml_v(props).px_or_zero()) + iabs(mr_v(props).px_or_zero())
            + iabs(bl_v(props).px_or_zero()) + iabs(br_v(props).px_or_zero()) + iabs(
            pl_v(props).px_or_zero(),
        ) + iabs(pr_v(props).px_or_zero()) + iabs(mt_v(props).px_or_zero()) + iabs(
            mb_v(props).px_or_zero(),
        ) + iabs(bt_v(props).px_or_zero()) + iabs(bb_v(props).px_or_zero()) + iabs(
            pt_v(props).px_or_zero(),
        ) + iabs(pb_v(props).px_or_zero()) + iabs(width_v(props).px_or_zero()) + iabs(
            height_v(props).px_or_zero(),
        ),
        props_mass(props) >= iabs(msw_v(props).px_or_zero()) + iabs(msh_v(props).px_or_zero()),
{
    reveal(props_mass);
    assert(iabs(width_v(props).px_or_zero()) >= 0);
    assert(iabs(height_v(props).px_or_zero()) >= 0);
    assert(iabs(ml_v(props).px_or_zero()) >= 0);
    assert(iabs(mr_v(props).px_or_zero()) >= 0);
    assert(iabs(mt_v(props).px_or_zero()) >= 0);
    assert(iabs(mb_v(props).px_or_zero()) >= 0);
    assert(iabs(bl_v(props).px_or_zero()) >= 0);
    assert(iabs(br_v(props).px_or_zero()) >= 0);
    assert(iabs(bt_v(props).px_or_zero()) >= 0);
    assert(iabs(bb_v(props).px_or_zero()) >= 0);
    assert(iabs(pl_v(props).px_or_zero()) >= 0);
    assert(iabs(pr_v(props).px_or_zero()) >= 0);
    assert(iabs(pt_v(props).px_or_zero()) >= 0);
    assert(iabs(pb_v(props).px_or_zero()) >= 0);
    assert(iabs(msw_v(props).px_or_zero()) >= 0);
    assert(iabs(msh_v(props).px_or_zero()) >= 0);
}

pub broadcast proof fn lemma_box_mass_nonneg(b: BoxView)
    ensures
        #[trigger] box_mass(b) >= 0,
    decreases b, 1int,
{
    if b.box_type.has_style() {
        lemma_props_mass(b.box_type.props());
    }
    lemma_boxes_mass_nonneg(b.children);
}

pub broadcast proof fn lemma_boxes_mass_nonneg(s: Seq<BoxView>)
    ensures
        #[trigger] boxes_mass(s) >= 0,
    decreases s, 0int,
{
    if s.len() > 0 {
        lemma_boxes_mass_nonneg(s.drop_last());
        lemma_box_mass_nonneg(s.last());
    }
}

pub broadcast proof fn lemma_box_size_pos(b: BoxView)
    ensures
        #[trigger] box_size(b) >= 1,
    decreases b, 1int,
{
    lemma_boxes_size_nonneg(b.children);
}

pub broadcast proof fn lemma_boxes_size_nonneg(s: Seq<BoxView>)
    ensures
        #[trigger] boxes_size(s) >= 0,
    decreases s, 0int,
{
    if s.len() > 0 {
        lemma_boxes_size_nonneg(s.drop_last());
        lemma_box_size_pos(s.last());
    }
}

/// One element's mass and size are within the whole sequence's.
pub proof fn lemma_boxes_elem(s: Seq<BoxView>, i: int)
    requires
        0 <= i < s.len(),
    ensures
        box_mass(s[i]) <= boxes_mass(s),
        box_size(s[i]) <= boxes_size(s),
    decreases s,
{
    if i == s.len() - 1 {
        assert(s.last() == s[i]);
        lemma_boxes_mass_nonneg(s.drop_last());
        lemma_boxes_size_nonneg(s.drop_last());
    } else {
        assert(s.drop_last()[i] == s[i]);
        lemma_boxes_elem(s.drop_last(), i);
        lemma_box_mass_nonneg(s.last());
        lemma_box_size_pos(s.last());
    }
}

/// Mass and size of a prefix, extended one element at a time.
pub proof fn lemma_boxes_take_step(s: Seq<BoxView>, i: int)
    requires
        0 <= i < s.len(),
    ensures
        boxes_mass(s.take(i + 1)) == boxes_mass(s.take(i)) + box_mass(s[i]),
        boxes_size(s.take(i + 1)) == boxes_size(s.take(i)) + box_size(s[i]),
{
    assert(s.take(i + 1).drop_last() =~= s.take(i));
    assert(s.take(i + 1).last() == s[i]);
}

/// A prefix carries at most the whole sequence's mass and size.
pub proof fn lemma_boxes_take_le(s: Seq<BoxView>, i: int)
    requires
        0 <= i <= s.len(),
    ensures
        boxes_mass(s.take(i)) <= boxes_mass(s),
        boxes_size(s.take(i)) <= boxes_size(s),
    decreases s.len() - i,
{
    broadcast use {lemma_box_mass_nonneg, lemma_box_size_pos};

    if i == s.len() {
        assert(s.take(i) =~= s);
    } else {
        lemma_boxes_take_step(s, i);
        lemma_boxes_take_le(s, i + 1);
    }
}

// ---------------------------------------------------------------------
// The position resolver's offset mass.
// ---------------------------------------------------------------------

pub broadcast proof fn lemma_offs_mass_nonneg(b: BoxView)
    ensures
        #[trigger] super::model::offs_mass(b) >= 0,
    decreases b, 1int,
{
    lemma_offs_mass_seq_nonneg(b.children);
}

pub broadcast proof fn lemma_offs_mass_seq_nonneg(s: Seq<BoxView>)
    ensures
        #[trigger] super::model::offs_mass_seq(s) >= 0,
    decreases s, 0int,
{
    if s.len() > 0 {
        lemma_offs_mass_seq_nonneg(s.drop_last());
        lemma_offs_mass_nonneg(s.last());
    }
}

/// One child's offset mass is within the sequence's.
pub proof fn lemma_offs_mass_elem(s: Seq<BoxView>, i: int)
    requires
        0 <= i < s.len(),
    ensures
        super::model::offs_mass(s[i]) <= super::model::offs_mass_seq(s),
    decreases s,
{
    if i == s.len() - 1 {
        assert(s.last() == s[i]);
        lemma_offs_mass_seq_nonneg(s.drop_last());
    } else {
        assert(s.drop_last()[i] == s[i]);
        lemma_offs_mass_elem(s.drop_last(), i);
        lemma_offs_mass_nonneg(s.last());
    }
}

/// Descending into a child keeps the position resolver within its
/// machine-word budget, and the accumulated origin within the word.
pub proof fn lemma_abs_fits_child(b: BoxView, px: int, py: int, i: int)
    requires
        super::model::abs_fits(b, px, py),
        0 <= i < b.children.len(),
    ensures
        super::model::abs_fits(
            b.children[i],
            px + super::model::get_left_v(b.dimensions),
            py + super::model::get_top_v(b.dimensions),
        ),
        -(super::model::PX_LIMIT as int) <= px + super::model::get_left_v(b.dimensions) <= (
        super::model::PX_LIMIT as int),
        -(super::model::PX_LIMIT as int) <= py + super::model::get_top_v(b.dimensions) <= (
        super::model::PX_LIMIT as int),
{
    lemma_offs_mass_seq_nonneg(b.children);
    lemma_offs_mass_elem(b.children, i);
    lemma_offs_mass_nonneg(b.children[i]);
}

// ---------------------------------------------------------------------
// Skeleton similarity: what layout never touches.
// ---------------------------------------------------------------------

/// Two boxes agree on everything the layout pass reads or copies:
/// the box type (style included), the absolute origin, and — for
/// inline boxes, whose children layout copies wholesale — the children
/// themselves; elsewhere the children agree recursively.
pub open spec fn similar(a: BoxView, b: BoxView) -> bool
    decreases a, 1int,
{
    &&& a.box_type == b.box_type
    &&& a.dimensions.box_abs == b.dimensions.box_abs
    &&& match a.box_type {
        BoxTypeV::InlineNode(_) => a.children == b.children,
        _ => similar_seq(a.children, b.children),
    }
}

pub open spec fn similar_seq(sa: Seq<BoxView>, sb: Seq<BoxView>) -> bool
    decreases sa, 0int,
{
    if sa.len() != sb.len() {
        false
    } else if sa.len() == 0 {
        true
    } else {
        similar_seq(sa.drop_last(), sb.drop_last()) && similar(sa.last(), sb.last())
    }
}

/// Moving a box within its parent does not disturb similarity.
pub proof fn lemma_set_offset_similar(a: BoxView, b: BoxView, l: int, t: int)
    requires
        similar(a, b),
    ensures
        similar(set_offset(a, l, t), b),
{
    assert(set_offset(a, l, t).box_type == a.box_type);
    assert(set_offset(a, l, t).children == a.children);
}

/// Similarity of sequences is similarity position by position.
pub proof fn lemma_similar_seq_elem(sa: Seq<BoxView>, sb: Seq<BoxView>, i: int)
    requires
        similar_seq(sa, sb),
        0 <= i < sa.len(),
    ensures
        similar(sa[i], sb[i]),
    decreases sa,
{
    if i == sa.len() - 1 {
        assert(sa.last() == sa[i]);
        assert(sb.last() == sb[i]);
    } else {
        assert(sa.drop_last()[i] == sa[i]);
        assert(sb.drop_last()[i] == sb[i]);
        lemma_similar_seq_elem(sa.drop_last(), sb.drop_last(), i);
    }
}

/// Similar boxes weigh and count the same.
pub proof fn lemma_similar_mass(a: BoxView, b: BoxView)
    requires
        similar(a, b),
    ensures
        box_mass(a) == box_mass(b),
        box_size(a) == box_size(b),
    decreases a, 1int,
{
    match a.box_type {
        BoxTypeV::InlineNode(_) => {
        },
        _ => {
            lemma_similar_seq_mass(a.children, b.children);
        },
    }
}

pub proof fn lemma_similar_seq_mass(sa: Seq<BoxView>, sb: Seq<BoxView>)
    requires
        similar_seq(sa, sb),
    ensures
        boxes_mass(sa) == boxes_mass(sb),
        boxes_size(sa) == boxes_size(sb),
    decreases sa, 0int,
{
    if sa.len() > 0 {
        lemma_similar_seq_mass(sa.drop_last(), sb.drop_last());
        lemma_similar_mass(sa.last(), sb.last());
    }
}

// ---------------------------------------------------------------------
// Layout preserves the skeleton.
// ---------------------------------------------------------------------

/// What layout returns is similar to what it was given.
pub proof fn lemma_layout_skel(b: BoxView, cw: ValueView, kw: ValueView)
    ensures
        spec_layout(b, cw, kw) matches Ok(r) ==> similar(r, b),
    decreases b, 3int,
{
    match b.box_type {
        BoxTypeV::InlineNode(_) => {
        },
        BoxTypeV::AnonymousBlock => {
            lemma_lines_skel(b.children, kw, kw.px_or_zero());
        },
        _ => {
            lemma_flow_skel(b, cw, kw);
        },
    }
}

#[verifier::rlimit(50)]
proof fn lemma_flow_skel(b: BoxView, cw: ValueView, kw: ValueView)
    requires
        b.box_type matches BoxTypeV::BlockNode(_) || b.box_type matches BoxTypeV::InlineBlockNode(
            _,
        ),
    ensures
        spec_layout(b, cw, kw) matches Ok(r) ==> similar(r, b),
    decreases b, 2int,
{
    let props = b.box_type.props();
    if flow_sizing_ok(props) {
        let w_v = width_v(props);
        if w_v.is_specific_length() || cw.is_specific_length() {
            let rw = if cw.is_specific_length() {
                resolve_width(
                    w_v,
                    ml_v(props),
                    mr_v(props),
                    bl_v(props).px_or_zero() + br_v(
                        props,
                    ).px_or_zero() + pl_v(props).px_or_zero() + pr_v(
                        props,
                    ).px_or_zero(),
                    cw.px_or_zero(),
                )
            } else {
                (w_v.px_or_zero(), ml_v(props).px_or_zero(), mr_v(
                    props,
                ).px_or_zero())
            };
            let cpass = ValueView::Length(rw.0, crate::css::Unit::Px);
            lemma_stack_skel(b.children, cpass, cpass);
        } else {
            let ml0 = ml_v(props).px_or_zero();
            let mr0 = mr_v(props).px_or_zero();
            let sum_bp = bl_v(props).px_or_zero() + br_v(
                props,
            ).px_or_zero() + pl_v(props).px_or_zero() + pr_v(
                props,
            ).px_or_zero();
            let kpass = ValueView::Length(
                kw.px_or_zero() - (ml0 + mr0 + sum_bp),
                crate::css::Unit::Px,
            );
            lemma_stack_skel(b.children, auto_v(), kpass);
            match stack_flow(b.children, auto_v(), kpass) {
                Ok(st) => {
                    let c2 = st.max_w - (ml0 + mr0 + sum_bp);
                    lemma_relayout_skel(b.children, st.out, c2);
                },
                Err(_) => {
                },
            }
        }
    }
}

pub proof fn lemma_stack_skel(cs: Seq<BoxView>, cpass: ValueView, kpass: ValueView)
    ensures
        stack_flow(cs, cpass, kpass) matches Ok(st) ==> st.out.len() == cs.len() && similar_seq(
            st.out,
            cs,
        ),
    decreases cs, 1int,
{
    if cs.len() > 0 {
        lemma_stack_skel(cs.drop_last(), cpass, kpass);
        lemma_layout_skel(cs.last(), cpass, kpass);
        match stack_flow(cs, cpass, kpass) {
            Ok(st) => {
                let prev = stack_flow(cs.drop_last(), cpass, kpass)->Ok_0;
                let c1 = spec_layout(cs.last(), cpass, kpass)->Ok_0;
                let placed = set_offset(c1, 0, prev.sum_h);
                assert(st.out == prev.out.push(placed));
                assert(st.out.drop_last() =~= prev.out);
                assert(st.out.last() == placed);
                lemma_set_offset_similar(c1, cs.last(), 0, prev.sum_h);
                assert(similar_seq(st.out, cs));
            },
            Err(_) => {
            },
        }
    }
}

pub proof fn lemma_lines_skel(cs: Seq<BoxView>, kw: ValueView, w: int)
    ensures
        lines_stack(cs, kw, w) matches Ok(st) ==> st.out.len() == cs.len() && similar_seq(
            st.out,
            cs,
        ),
    decreases cs, 1int,
{
    if cs.len() > 0 {
        lemma_lines_skel(cs.drop_last(), kw, w);
        lemma_layout_skel(cs.last(), auto_v(), kw);
        match lines_stack(cs, kw, w) {
            Ok(st) => {
                let prev = lines_stack(cs.drop_last(), kw, w)->Ok_0;
                let c1 = spec_layout(cs.last(), auto_v(), kw)->Ok_0;
                let mw = margin_width_v(c1.dimensions);
                let placed = if prev.cur_w + mw > w {
                    set_offset(c1, 0, prev.lines_h + prev.cur_h)
                } else {
                    set_offset(c1, prev.cur_w, prev.lines_h)
                };
                assert(st.out == prev.out.push(placed));
                assert(st.out.drop_last() =~= prev.out);
                assert(st.out.last() == placed);
                if prev.cur_w + mw > w {
                    lemma_set_offset_similar(c1, cs.last(), 0, prev.lines_h + prev.cur_h);
                } else {
                    lemma_set_offset_similar(c1, cs.last(), prev.cur_w, prev.lines_h);
                }
                assert(similar_seq(st.out, cs));
            },
            Err(_) => {
            },
        }
    }
}

pub proof fn lemma_relayout_skel(orig: Seq<BoxView>, laid: Seq<BoxView>, c2: int)
    requires
        similar_seq(laid, orig),
    ensures
        relayout_seq(orig, laid, c2) matches Ok(cs2) ==> cs2.len() == orig.len() && similar_seq(
            cs2,
            orig,
        ),
    decreases orig, 1int,
{
    if orig.len() > 0 && laid.len() > 0 {
        lemma_relayout_skel(orig.drop_last(), laid.drop_last(), c2);
        let c2v = ValueView::Length(c2, crate::css::Unit::Px);
        lemma_layout_skel(orig.last(), c2v, c2v);
        match relayout_seq(orig, laid, c2) {
            Ok(cs2) => {
                let prev = relayout_seq(orig.drop_last(), laid.drop_last(), c2)->Ok_0;
                let last2 = if needs_relayout(orig.last()) {
                    let nb = spec_layout(orig.last(), c2v, c2v)->Ok_0;
                    set_offset(
                        nb,
                        laid.last().dimensions.box_offset.left,
                        laid.last().dimensions.box_offset.top,
                    )
                } else {
                    laid.last()
                };
                assert(cs2 == prev.push(last2));
                assert(cs2.drop_last() =~= prev);
                assert(cs2.last() == last2);
                if needs_relayout(orig.last()) {
                    let nb = spec_layout(orig.last(), c2v, c2v)->Ok_0;
                    lemma_set_offset_similar(
                        nb,
                        orig.last(),
                        laid.last().dimensions.box_offset.left,
                        laid.last().dimensions.box_offset.top,
                    );
                }
                assert(similar_seq(cs2, orig));
            },
            Err(_) => {
            },
        }
    }
}

// ---------------------------------------------------------------------
// Bounds on the geometry layout produces.
// ---------------------------------------------------------------------

/// A margin-box extent is within the summed magnitudes of the fields
/// that make it up.
pub proof fn lemma_msums(d: super::model::DimsV)
    ensures
        iabs(margin_height_v(d)) <= hsum(d),
        iabs(margin_width_v(d)) <= wsum(d),
        iabs(d.inner.height) <= hsum(d),
        iabs(d.inner.width) <= wsum(d),
{
}

/// The geometry a laid-out box carries is within the mass of its
/// subtree: always so for heights, and for widths whenever the
/// containing width was not specific (then nothing from the container
/// leaks into the box's own extent).
#[verifier::rlimit(60)]
pub proof fn lemma_layout_bounds(b: BoxView, cw: ValueView, kw: ValueView)
    ensures
        spec_layout(b, cw, kw) matches Ok(r) ==> hsum(r.dimensions) <= box_mass(b) && (
        !cw.is_specific_length() ==> wsum(r.dimensions) <= box_mass(b)),
    decreases b, 3int,
{
    broadcast use {lemma_box_mass_nonneg, lemma_boxes_mass_nonneg};

    match b.box_type {
        BoxTypeV::InlineNode(props) => {
            lemma_props_mass(props);
            lemma_boxes_mass_nonneg(b.children);
            assert(box_mass(b) == props_mass(props) + boxes_mass(b.children));
            match spec_layout(b, cw, kw) {
                Ok(r) => {
                    assert(hsum(r.dimensions) == iabs(msh_v(props).px_or_zero()));
                    assert(wsum(r.dimensions) == iabs(msw_v(props).px_or_zero()));
                },
                Err(_) => {
                },
            }
        },
        BoxTypeV::AnonymousBlock => {
            lemma_lines_bounds(b.children, kw, kw.px_or_zero());
            lemma_boxes_mass_nonneg(b.children);
            assert(box_mass(b) == boxes_mass(b.children));
            match spec_layout(b, cw, kw) {
                Ok(r) => {
                    let st = lines_stack(b.children, kw, kw.px_or_zero())->Ok_0;
                    assert(hsum(r.dimensions) == iabs(st.lines_h + st.cur_h));
                    assert(wsum(r.dimensions) == iabs(imax(st.lines_w, st.cur_w)));
                },
                Err(_) => {
                },
            }
        },
        _ => {
            lemma_flow_bounds(b, cw, kw);
        },
    }
}

#[verifier::rlimit(80)]
proof fn lemma_flow_bounds(b: BoxView, cw: ValueView, kw: ValueView)
    requires
        b.box_type matches BoxTypeV::BlockNode(_) || b.box_type matches BoxTypeV::InlineBlockNode(
            _,
        ),
    ensures
        spec_layout(b, cw, kw) matches Ok(r) ==> hsum(r.dimensions) <= box_mass(b) && (
        !cw.is_specific_length() ==> wsum(r.dimensions) <= box_mass(b)),
    decreases b, 2int,
{
    broadcast use {lemma_box_mass_nonneg, lemma_boxes_mass_nonneg};

    let props = b.box_type.props();
    lemma_props_mass(props);
    if flow_sizing_ok(props) {
        let w_v = width_v(props);
        let ml0 = ml_v(props).px_or_zero();
        let mr0 = mr_v(props).px_or_zero();
        let sum_bp = bl_v(props).px_or_zero() + br_v(props).px_or_zero() + pl_v(
            props,
        ).px_or_zero() + pr_v(props).px_or_zero();
        if w_v.is_specific_length() || cw.is_specific_length() {
            let rw = if cw.is_specific_length() {
                resolve_width(w_v, ml_v(props), mr_v(props), sum_bp, cw.px_or_zero())
            } else {
                (w_v.px_or_zero(), ml0, mr0)
            };
            let cpass = ValueView::Length(rw.0, crate::css::Unit::Px);
            lemma_stack_bounds(b.children, cpass, cpass);
        } else {
            let kpass = ValueView::Length(
                kw.px_or_zero() - (ml0 + mr0 + sum_bp),
                crate::css::Unit::Px,
            );
            lemma_stack_bounds(b.children, auto_v(), kpass);
        }
    }
}

/// Bounds carried by the vertical stacking pass: the running height is
/// within the children's mass, and under a non-specific container so
/// is the widest margin box.
pub proof fn lemma_stack_bounds(cs: Seq<BoxView>, cpass: ValueView, kpass: ValueView)
    ensures
        stack_flow(cs, cpass, kpass) matches Ok(st) ==> iabs(st.sum_h) <= boxes_mass(cs) && 0
            <= st.max_w && (!cpass.is_specific_length() ==> st.max_w <= boxes_mass(cs)),
    decreases cs, 1int,
{
    broadcast use {lemma_box_mass_nonneg, lemma_boxes_mass_nonneg};

    if cs.len() > 0 {
        lemma_stack_bounds(cs.drop_last(), cpass, kpass);
        lemma_layout_bounds(cs.last(), cpass, kpass);
        match stack_flow(cs, cpass, kpass) {
            Ok(st) => {
                let prev = stack_flow(cs.drop_last(), cpass, kpass)->Ok_0;
                let c1 = spec_layout(cs.last(), cpass, kpass)->Ok_0;
                let placed = set_offset(c1, 0, prev.sum_h);
                lemma_msums(placed.dimensions);
                assert(hsum(placed.dimensions) == hsum(c1.dimensions));
                assert(wsum(placed.dimensions) == wsum(c1.dimensions));
            },
            Err(_) => {
            },
        }
    }
}

/// Bounds carried by the line-wrapping pass: committed and current
/// line heights are non-negative and within the children's mass, and
/// the line widths are within it in magnitude.
pub proof fn lemma_lines_bounds(cs: Seq<BoxView>, kw: ValueView, w: int)
    ensures
        lines_stack(cs, kw, w) matches Ok(st) ==> 0 <= st.lines_h && 0 <= st.cur_h && st.lines_h
            + st.cur_h <= boxes_mass(cs) && iabs(st.cur_w) <= boxes_mass(cs) && 0 <= st.lines_w
            <= boxes_mass(cs),
    decreases cs, 1int,
{
    broadcast use {lemma_box_mass_nonneg, lemma_boxes_mass_nonneg};

    if cs.len() > 0 {
        lemma_lines_bounds(cs.drop_last(), kw, w);
        lemma_layout_bounds(cs.last(), auto_v(), kw);
        match lines_stack(cs, kw, w) {
            Ok(st) => {
                let prev = lines_stack(cs.drop_last(), kw, w)->Ok_0;
                let c1 = spec_layout(cs.last(), auto_v(), kw)->Ok_0;
                lemma_msums(c1.dimensions);
            },
            Err(_) => {
            },
        }
    }
}

/// Whatever the policy picks stays within the container magnitude
/// plus the total declared magnitude it weighs: the width within one
/// such total, the margins within two.
pub proof fn lemma_resolve_range(
    w: ValueView,
    ml: ValueView,
    mr: ValueView,
    sum_bp: int,
    c: int,
    a: int,
    l: int,
)
    requires
        -a <= w.px_or_zero() <= a,
        -a <= ml.px_or_zero() <= a,
        -a <= mr.px_or_zero() <= a,
        -a <= ml.px_or_zero() + mr.px_or_zero() + sum_bp + w.px_or_zero() <= a,
        -l <= c <= l,
        0 <= a,
        0 <= l,
    ensures
        -(l + a) <= resolve_width(w, ml, mr, sum_bp, c).0 <= l + a,
        -(l + 2 * a) <= resolve_width(w, ml, mr, sum_bp, c).1 <= l + 2 * a,
        -(l + 2 * a) <= resolve_width(w, ml, mr, sum_bp, c).2 <= l + 2 * a,
{
    reveal(resolve_width);
    let u = c - (ml.px_or_zero() + mr.px_or_zero() + sum_bp + w.px_or_zero());
    if u >= 0 {
        assert(0 <= u / 2 <= u);
    }
}

/// Plain consequences of the machine-word precondition.
pub proof fn lemma_fits_basic(b: BoxView, cw: ValueView, kw: ValueView)
    requires
        super::model::layout_fits(b, cw, kw),
    ensures
        -(super::model::PX_LIMIT as int) <= cw.px_or_zero() <= super::model::PX_LIMIT as int,
        -(super::model::PX_LIMIT as int) <= kw.px_or_zero() <= super::model::PX_LIMIT as int,
        box_mass(b) >= 0,
        4 * box_mass(b) <= super::model::PX_LIMIT as int,
{
    lemma_box_mass_nonneg(b);
}

/// Two-sided per-component bounds from a bound on a style's mass.
#[verifier::rlimit(100)]
pub proof fn lemma_props_px_bounds(props: Map<Seq<char>, ValueView>, m: int)
    requires
        props_mass(props) <= m,
    ensures
        0 <= props_mass(props),
        -m <= width_v(props).px_or_zero() + ml_v(props).px_or_zero() + mr_v(props).px_or_zero()
            + bl_v(props).px_or_zero() + br_v(props).px_or_zero() + pl_v(props).px_or_zero()
            + pr_v(props).px_or_zero() <= m,
        -m <= width_v(props).px_or_zero() <= m,
        -m <= height_v(props).px_or_zero() <= m,
        -m <= ml_v(props).px_or_zero() <= m,
        -m <= mr_v(props).px_or_zero() <= m,
        -m <= mt_v(props).px_or_zero() <= m,
        -m <= mb_v(props).px_or_zero() <= m,
        -m <= bl_v(props).px_or_zero() <= m,
        -m <= br_v(props).px_or_zero() <= m,
        -m <= bt_v(props).px_or_zero() <= m,
        -m <= bb_v(props).px_or_zero() <= m,
        -m <= pl_v(props).px_or_zero() <= m,
        -m <= pr_v(props).px_or_zero() <= m,
        -m <= pt_v(props).px_or_zero() <= m,
        -m <= pb_v(props).px_or_zero() <= m,
        -m <= msw_v(props).px_or_zero() <= m,
        -m <= msh_v(props).px_or_zero() <= m,
        bl_v(props).px_or_zero() + br_v(props).px_or_zero() + pl_v(props).px_or_zero() + pr_v(
            props,
        ).px_or_zero() + ml_v(props).px_or_zero() + mr_v(props).px_or_zero() <= m,
        -m <= bl_v(props).px_or_zero() + br_v(props).px_or_zero() + pl_v(props).px_or_zero()
            + pr_v(props).px_or_zero() + ml_v(props).px_or_zero() + mr_v(props).px_or_zero(),
        bl_v(props).px_or_zero() + br_v(props).px_or_zero() + pl_v(props).px_or_zero() + pr_v(
            props,
        ).px_or_zero() <= m,
        -m <= bl_v(props).px_or_zero() + br_v(props).px_or_zero() + pl_v(props).px_or_zero()
            + pr_v(props).px_or_zero(),
{
    lemma_props_mass(props);
    assert(iabs(width_v(props).px_or_zero()) >= 0);
    assert(iabs(height_v(props).px_or_zero()) >= 0);
    assert(iabs(ml_v(props).px_or_zero()) >= 0);
    assert(iabs(mr_v(props).px_or_zero()) >= 0);
    assert(iabs(mt_v(props).px_or_zero()) >= 0);
    assert(iabs(mb_v(props).px_or_zero()) >= 0);
    assert(iabs(bl_v(props).px_or_zero()) >= 0);
    assert(iabs(br_v(props).px_or_zero()) >= 0);
    assert(iabs(bt_v(props).px_or_zero()) >= 0);
    assert(iabs(bb_v(props).px_or_zero()) >= 0);
    assert(iabs(pl_v(props).px_or_zero()) >= 0);
    assert(iabs(pr_v(props).px_or_zero()) >= 0);
    assert(iabs(pt_v(props).px_or_zero()) >= 0);
    assert(iabs(pb_v(props).px_or_zero()) >= 0);
    assert(iabs(msw_v(props).px_or_zero()) >= 0);
    assert(iabs(msh_v(props).px_or_zero()) >= 0);
    assert(-iabs(width_v(props).px_or_zero()) <= width_v(props).px_or_zero() <= iabs(
        width_v(props).px_or_zero(),
    ));
    assert(-iabs(height_v(props).px_or_zero()) <= height_v(props).px_or_zero() <= iabs(
        height_v(props).px_or_zero(),
    ));
    assert(-iabs(ml_v(props).px_or_zero()) <= ml_v(props).px_or_zero() <= iabs(
        ml_v(props).px_or_zero(),
    ));
    assert(-iabs(mr_v(props).px_or_zero()) <= mr_v(props).px_or_zero() <= iabs(
        mr_v(props).px_or_zero(),
    ));
    assert(-iabs(mt_v(props).px_or_zero()) <= mt_v(props).px_or_zero() <= iabs(
        mt_v(props).px_or_zero(),
    ));
    assert(-iabs(mb_v(props).px_or_zero()) <= mb_v(props).px_or_zero() <= iabs(
        mb_v(props).px_or_zero(),
    ));
    assert(-iabs(bl_v(props).px_or_zero()) <= bl_v(props).px_or_zero() <= iabs(
        bl_v(props).px_or_zero(),
    ));
    assert(-iabs(br_v(props).px_or_zero()) <= br_v(props).px_or_zero() <= iabs(
        br_v(props).px_or_zero(),
    ));
    assert(-iabs(bt_v(props).px_or_zero()) <= bt_v(props).px_or_zero() <= iabs(
        bt_v(props).px_or_zero(),
    ));
    assert(-iabs(bb_v(props).px_or_zero()) <= bb_v(props).px_or_zero() <= iabs(
        bb_v(props).px_or_zero(),
    ));
    assert(-iabs(pl_v(props).px_or_zero()) <= pl_v(props).px_or_zero() <= iabs(
        pl_v(props).px_or_zero(),
    ));
    assert(-iabs(pr_v(props).px_or_zero()) <= pr_v(props).px_or_zero() <= iabs(
        pr_v(props).px_or_zero(),
    ));
    assert(-iabs(pt_v(props).px_or_zero()) <= pt_v(props).px_or_zero() <= iabs(
        pt_v(props).px_or_zero(),
    ));
    assert(-iabs(pb_v(props).px_or_zero()) <= pb_v(props).px_or_zero() <= iabs(
        pb_v(props).px_or_zero(),
    ));
    assert(-iabs(msw_v(props).px_or_zero()) <= msw_v(props).px_or_zero() <= iabs(
        msw_v(props).px_or_zero(),
    ));
    assert(-iabs(msh_v(props).px_or_zero()) <= msh_v(props).px_or_zero() <= iabs(
        msh_v(props).px_or_zero(),
    ));
}

// ---------------------------------------------------------------------
// The budget telescopes down every recursive call.
// ---------------------------------------------------------------------

/// A child call stays within the machine-word budget: its container
/// and constraint magnitudes grew by at most the parent style's own
/// mass, or stay within twice the parent subtree's mass, while its
/// own mass shrank by as much.
pub proof fn lemma_fits_child(
    b: BoxView,
    cw: ValueView,
    kw: ValueView,
    c: BoxView,
    cp: ValueView,
    kp: ValueView,
    pm: int,
)
    requires
        super::model::layout_fits(b, cw, kw),
        box_mass(b) == pm + boxes_mass(b.children),
        pm >= 0,
        box_mass(c) <= boxes_mass(b.children),
        super::model::px_abs(cp) <= imax(
            imax(super::model::px_abs(cw), super::model::px_abs(kw)) + pm,
            2 * box_mass(b),
        ),
        super::model::px_abs(kp) <= imax(
            imax(super::model::px_abs(cw), super::model::px_abs(kw)) + pm,
            2 * box_mass(b),
        ),
    ensures
        super::model::layout_fits(c, cp, kp),
{
    lemma_box_mass_nonneg(c);
    lemma_boxes_mass_nonneg(b.children);
}

/// Every child of a fixed-width flow box may be laid out against the
/// resolved content width within the machine-word budget.
#[verifier::rlimit(60)]
pub proof fn lemma_fixed_prep(b: BoxView, cw: ValueView, kw: ValueView)
    requires
        super::model::layout_fits(b, cw, kw),
        b.box_type matches BoxTypeV::BlockNode(_) || b.box_type matches BoxTypeV::InlineBlockNode(
            _,
        ),
        flow_sizing_ok(b.box_type.props()),
    ensures
        ({
            let props = b.box_type.props();
            let sum_bp = bl_v(props).px_or_zero() + br_v(props).px_or_zero() + pl_v(
                props,
            ).px_or_zero() + pr_v(props).px_or_zero();
            let w1 = if cw.is_specific_length() {
                resolve_width(width_v(props), ml_v(props), mr_v(props), sum_bp, cw.px_or_zero()).0
            } else {
                width_v(props).px_or_zero()
            };
            let cp = ValueView::Length(w1, crate::css::Unit::Px);
            forall|i: int|
                0 <= i < b.children.len() ==> super::model::layout_fits(
                    #[trigger] b.children[i],
                    cp,
                    cp,
                )
        }),
{
    let props = b.box_type.props();
    let pm = props_mass(props);
    lemma_props_mass(props);
    lemma_boxes_mass_nonneg(b.children);
    assert(box_mass(b) == pm + boxes_mass(b.children));
    let sum_bp = bl_v(props).px_or_zero() + br_v(props).px_or_zero() + pl_v(props).px_or_zero()
        + pr_v(props).px_or_zero();
    let w1 = if cw.is_specific_length() {
        resolve_width(width_v(props), ml_v(props), mr_v(props), sum_bp, cw.px_or_zero()).0
    } else {
        width_v(props).px_or_zero()
    };
    let cp = ValueView::Length(w1, crate::css::Unit::Px);
    lemma_props_px_bounds(props, pm);
    if cw.is_specific_length() {
        lemma_resolve_range(
            width_v(props),
            ml_v(props),
            mr_v(props),
            sum_bp,
            cw.px_or_zero(),
            pm,
            iabs(cw.px_or_zero()),
        );
    }
    assert(super::model::px_abs(cp) <= super::model::imax(
        super::model::px_abs(cw),
        super::model::px_abs(kw),
    ) + pm);
    assert forall|i: int| 0 <= i < b.children.len() implies super::model::layout_fits(
        #[trigger] b.children[i],
        cp,
        cp,
    ) by {
        lemma_boxes_elem(b.children, i);
        lemma_box_mass_nonneg(b.children[i]);
        lemma_fits_child(b, cw, kw, b.children[i], cp, cp, pm);
    }
}

/// Every child of a deferred-width flow box may be measured against
/// the reduced constraint within the machine-word budget.
#[verifier::rlimit(60)]
pub proof fn lemma_deferred_prep(b: BoxView, cw: ValueView, kw: ValueView)
    requires
        super::model::layout_fits(b, cw, kw),
        b.box_type matches BoxTypeV::BlockNode(_) || b.box_type matches BoxTypeV::InlineBlockNode(
            _,
        ),
        flow_sizing_ok(b.box_type.props()),
    ensures
        ({
            let props = b.box_type.props();
            let sum6 = ml_v(props).px_or_zero() + mr_v(props).px_or_zero() + (bl_v(
                props,
            ).px_or_zero() + br_v(props).px_or_zero() + pl_v(props).px_or_zero() + pr_v(
                props,
            ).px_or_zero());
            let kp = ValueView::Length(kw.px_or_zero() - sum6, crate::css::Unit::Px);
            forall|i: int|
                0 <= i < b.children.len() ==> super::model::layout_fits(
                    #[trigger] b.children[i],
                    auto_v(),
                    kp,
                )
        }),
{
    let props = b.box_type.props();
    let pm = props_mass(props);
    lemma_props_mass(props);
    lemma_boxes_mass_nonneg(b.children);
    assert(box_mass(b) == pm + boxes_mass(b.children));
    let sum6 = ml_v(props).px_or_zero() + mr_v(props).px_or_zero() + (bl_v(props).px_or_zero()
        + br_v(props).px_or_zero() + pl_v(props).px_or_zero() + pr_v(props).px_or_zero());
    let kp = ValueView::Length(kw.px_or_zero() - sum6, crate::css::Unit::Px);
    lemma_props_px_bounds(props, pm);
    assert(super::model::px_abs(kp) <= super::model::imax(
        super::model::px_abs(cw),
        super::model::px_abs(kw),
    ) + pm);
    assert forall|i: int| 0 <= i < b.children.len() implies super::model::layout_fits(
        #[trigger] b.children[i],
        auto_v(),
        kp,
    ) by {
        lemma_boxes_elem(b.children, i);
        lemma_box_mass_nonneg(b.children[i]);
        lemma_fits_child(b, cw, kw, b.children[i], auto_v(), kp, pm);
    }
}

/// After the measuring pass of a deferred-width flow box, the stacked
/// children are similar to the originals and may each be refilled
/// against the measured width within the machine-word budget.
#[verifier::rlimit(60)]
pub proof fn lemma_fill_prep(b: BoxView, cw: ValueView, kw: ValueView, kp: ValueView)
    requires
        super::model::layout_fits(b, cw, kw),
        b.box_type matches BoxTypeV::BlockNode(_) || b.box_type matches BoxTypeV::InlineBlockNode(
            _,
        ),
        flow_sizing_ok(b.box_type.props()),
        stack_flow(b.children, auto_v(), kp) is Ok,
    ensures
        ({
            let props = b.box_type.props();
            let st = stack_flow(b.children, auto_v(), kp)->Ok_0;
            let sum6 = ml_v(props).px_or_zero() + mr_v(props).px_or_zero() + (bl_v(
                props,
            ).px_or_zero() + br_v(props).px_or_zero() + pl_v(props).px_or_zero() + pr_v(
                props,
            ).px_or_zero());
            let c2v = ValueView::Length(st.max_w - sum6, crate::css::Unit::Px);
            similar_seq(st.out, b.children) && st.out.len() == b.children.len() && 0 <= st.max_w
                <= boxes_mass(b.children) && forall|i: int|
                0 <= i < b.children.len() ==> super::model::layout_fits(
                    #[trigger] st.out[i],
                    c2v,
                    c2v,
                )
        }),
{
    let props = b.box_type.props();
    let pm = props_mass(props);
    let st = stack_flow(b.children, auto_v(), kp)->Ok_0;
    lemma_props_mass(props);
    lemma_boxes_mass_nonneg(b.children);
    assert(box_mass(b) == pm + boxes_mass(b.children));
    lemma_stack_skel(b.children, auto_v(), kp);
    lemma_stack_bounds(b.children, auto_v(), kp);
    let sum6 = ml_v(props).px_or_zero() + mr_v(props).px_or_zero() + (bl_v(props).px_or_zero()
        + br_v(props).px_or_zero() + pl_v(props).px_or_zero() + pr_v(props).px_or_zero());
    let c2v = ValueView::Length(st.max_w - sum6, crate::css::Unit::Px);
    lemma_props_px_bounds(props, pm);
    assert(!auto_v().is_specific_length());
    assert(0 <= st.max_w <= boxes_mass(b.children));
    assert(-(2 * box_mass(b)) <= st.max_w - sum6 <= 2 * box_mass(b));
    assert(super::model::px_abs(c2v) <= 2 * box_mass(b));
    assert forall|i: int| 0 <= i < b.children.len() implies super::model::layout_fits(
        #[trigger] st.out[i],
        c2v,
        c2v,
    ) by {
        lemma_similar_seq_elem(st.out, b.children, i);
        lemma_similar_mass(st.out[i], b.children[i]);
        lemma_boxes_elem(b.children, i);
        lemma_box_mass_nonneg(b.children[i]);
        lemma_fits_child(b, cw, kw, st.out[i], c2v, c2v, pm);
    }
}

// ---------------------------------------------------------------------
// Error propagation through the folds.
// ---------------------------------------------------------------------

/// Once a child fails, the whole stacking pass fails with its error.
pub proof fn lemma_stack_err(
    cs: Seq<BoxView>,
    cpass: ValueView,
    kpass: ValueView,
    i: int,
    e: LayoutError,
)
    requires
        0 <= i < cs.len(),
        stack_flow(cs.take(i), cpass, kpass) is Ok,
        spec_layout(cs[i], cpass, kpass) == Err::<BoxView, LayoutError>(e),
    ensures
        stack_flow(cs, cpass, kpass) == Err::<StackState, LayoutError>(e),
    decreases cs.len(),
{
    if cs.len() == i + 1 {
        assert(cs.drop_last() =~= cs.take(i));
        assert(cs.last() == cs[i]);
    } else {
        assert(cs.drop_last().take(i) =~= cs.take(i));
        assert(cs.drop_last()[i] == cs[i]);
        lemma_stack_err(cs.drop_last(), cpass, kpass, i, e);
    }
}

/// Once a child fails, the whole line-wrapping pass fails with its
/// error.
pub proof fn lemma_lines_err(cs: Seq<BoxView>, kw: ValueView, w: int, i: int, e: LayoutError)
    requires
        0 <= i < cs.len(),
        lines_stack(cs.take(i), kw, w) is Ok,
        spec_layout(cs[i], auto_v(), kw) == Err::<BoxView, LayoutError>(e),
    ensures
        lines_stack(cs, kw, w) == Err::<LinesState, LayoutError>(e),
    decreases cs.len(),
{
    if cs.len() == i + 1 {
        assert(cs.drop_last() =~= cs.take(i));
        assert(cs.last() == cs[i]);
    } else {
        assert(cs.drop_last().take(i) =~= cs.take(i));
        assert(cs.drop_last()[i] == cs[i]);
        lemma_lines_err(cs.drop_last(), kw, w, i, e);
    }
}

/// Once a refilled child fails, the whole fill pass fails with its
/// error.
pub proof fn lemma_relayout_err(
    orig: Seq<BoxView>,
    laid: Seq<BoxView>,
    c2: int,
    i: int,
    e: LayoutError,
)
    requires
        0 <= i < orig.len(),
        orig.len() == laid.len(),
        relayout_seq(orig.take(i), laid.take(i), c2) is Ok,
        needs_relayout(orig[i]),
        spec_layout(
            orig[i],
            ValueView::Length(c2, crate::css::Unit::Px),
            ValueView::Length(c2, crate::css::Unit::Px),
        ) == Err::<BoxView, LayoutError>(e),
    ensures
        relayout_seq(orig, laid, c2) == Err::<Seq<BoxView>, LayoutError>(e),
    decreases orig.len(),
{
    if orig.len() == i + 1 {
        assert(orig.drop_last() =~= orig.take(i));
        assert(laid.drop_last() =~= laid.take(i));
        assert(orig.last() == orig[i]);
    } else {
        assert(orig.drop_last().take(i) =~= orig.take(i));
        assert(laid.drop_last().take(i) =~= laid.take(i));
        assert(orig.drop_last()[i] == orig[i]);
        lemma_relayout_err(orig.drop_last(), laid.drop_last(), c2, i, e);
    }
}

// ---------------------------------------------------------------------
// Congruence: layout reads nothing but the skeleton.
// ---------------------------------------------------------------------

/// Carry a box's own parent-relative offset over to a layout result.
pub open spec fn patch_result(r: Result<BoxView, LayoutError>, off: OffsetV) -> Result<
    BoxView,
    LayoutError,
> {
    match r {
        Ok(x) => Ok(set_offset(x, off.left, off.top)),
        Err(e) => Err(e),
    }
}

/// Laying out similar boxes gives the same outcome, up to each box
/// keeping its own offset within its parent.
pub proof fn lemma_layout_cong(a: BoxView, b: BoxView, cw: ValueView, kw: ValueView)
    requires
        similar(a, b),
    ensures
        spec_layout(a, cw, kw) == patch_result(spec_layout(b, cw, kw), a.dimensions.box_offset),
    decreases a, 3int,
{
    match a.box_type {
        BoxTypeV::InlineNode(props) => {
            match (spec_layout(a, cw, kw), spec_layout(b, cw, kw)) {
                (Ok(ra), Ok(rb)) => {
                    assert(ra =~= set_offset(rb, a.dimensions.box_offset.left,
                    a.dimensions.box_offset.top));
                },
                _ => {
                },
            }
        },
        BoxTypeV::AnonymousBlock => {
            lemma_lines_cong(a.children, b.children, kw, kw.px_or_zero());
            match (spec_layout(a, cw, kw), spec_layout(b, cw, kw)) {
                (Ok(ra), Ok(rb)) => {
                    assert(ra =~= set_offset(rb, a.dimensions.box_offset.left,
                    a.dimensions.box_offset.top));
                },
                _ => {
                },
            }
        },
        _ => {
            lemma_flow_cong(a, b, cw, kw);
        },
    }
}

#[verifier::rlimit(100)]
proof fn lemma_flow_cong(a: BoxView, b: BoxView, cw: ValueView, kw: ValueView)
    requires
        similar(a, b),
        a.box_type matches BoxTypeV::BlockNode(_) || a.box_type matches BoxTypeV::InlineBlockNode(
            _,
        ),
    ensures
        spec_layout(a, cw, kw) == patch_result(spec_layout(b, cw, kw), a.dimensions.box_offset),
    decreases a, 2int,
{
    let props = a.box_type.props();
    if flow_sizing_ok(props) {
        let w_v = width_v(props);
        let ml0 = ml_v(props).px_or_zero();
        let mr0 = mr_v(props).px_or_zero();
        let sum_bp = bl_v(props).px_or_zero() + br_v(props).px_or_zero() + pl_v(
            props,
        ).px_or_zero() + pr_v(props).px_or_zero();
        if w_v.is_specific_length() || cw.is_specific_length() {
            let rw = if cw.is_specific_length() {
                resolve_width(w_v, ml_v(props), mr_v(props), sum_bp, cw.px_or_zero())
            } else {
                (w_v.px_or_zero(), ml0, mr0)
            };
            let cpass = ValueView::Length(rw.0, crate::css::Unit::Px);
            lemma_stack_cong(a.children, b.children, cpass, cpass);
            match (spec_layout(a, cw, kw), spec_layout(b, cw, kw)) {
                (Ok(ra), Ok(rb)) => {
                    assert(ra =~= set_offset(rb, a.dimensions.box_offset.left,
                    a.dimensions.box_offset.top));
                },
                _ => {
                },
            }
        } else {
            let kpass = ValueView::Length(
                kw.px_or_zero() - (ml0 + mr0 + sum_bp),
                crate::css::Unit::Px,
            );
            lemma_stack_cong(a.children, b.children, auto_v(), kpass);
            match stack_flow(a.children, auto_v(), kpass) {
                Ok(st) => {
                    let c2 = st.max_w - (ml0 + mr0 + sum_bp);
                    lemma_relayout_cong(a.children, st.out, b.children, st.out, c2);
                    match (spec_layout(a, cw, kw), spec_layout(b, cw, kw)) {
                        (Ok(ra), Ok(rb)) => {
                            assert(ra =~= set_offset(rb, a.dimensions.box_offset.left,
                            a.dimensions.box_offset.top));
                        },
                        _ => {
                        },
                    }
                },
                Err(_) => {
                },
            }
        }
    }
}

proof fn lemma_stack_cong(sa: Seq<BoxView>, sb: Seq<BoxView>, cpass: ValueView, kpass: ValueView)
    requires
        similar_seq(sa, sb),
    ensures
        stack_flow(sa, cpass, kpass) == stack_flow(sb, cpass, kpass),
    decreases sa, 1int,
{
    if sa.len() > 0 {
        lemma_stack_cong(sa.drop_last(), sb.drop_last(), cpass, kpass);
        lemma_layout_cong(sa.last(), sb.last(), cpass, kpass);
        match (stack_flow(sa, cpass, kpass), stack_flow(sb, cpass, kpass)) {
            (Ok(sta), Ok(stb)) => {
                let prev = stack_flow(sa.drop_last(), cpass, kpass)->Ok_0;
                let c1a = spec_layout(sa.last(), cpass, kpass)->Ok_0;
                let c1b = spec_layout(sb.last(), cpass, kpass)->Ok_0;
                assert(set_offset(c1a, 0, prev.sum_h) =~= set_offset(c1b, 0, prev.sum_h));
                assert(sta =~= stb);
            },
            _ => {
            },
        }
    }
}

proof fn lemma_lines_cong(sa: Seq<BoxView>, sb: Seq<BoxView>, kw: ValueView, w: int)
    requires
        similar_seq(sa, sb),
    ensures
        lines_stack(sa, kw, w) == lines_stack(sb, kw, w),
    decreases sa, 1int,
{
    if sa.len() > 0 {
        lemma_lines_cong(sa.drop_last(), sb.drop_last(), kw, w);
        lemma_layout_cong(sa.last(), sb.last(), auto_v(), kw);
        match (lines_stack(sa, kw, w), lines_stack(sb, kw, w)) {
            (Ok(sta), Ok(stb)) => {
                let prev = lines_stack(sa.drop_last(), kw, w)->Ok_0;
                let c1a = spec_layout(sa.last(), auto_v(), kw)->Ok_0;
                let c1b = spec_layout(sb.last(), auto_v(), kw)->Ok_0;
                let mw = margin_width_v(c1a.dimensions);
                if prev.cur_w + mw > w {
                    assert(set_offset(c1a, 0, prev.lines_h + prev.cur_h) =~= set_offset(c1b, 0,
                    prev.lines_h + prev.cur_h));
                } else {
                    assert(set_offset(c1a, prev.cur_w, prev.lines_h) =~= set_offset(c1b,
                    prev.cur_w, prev.lines_h));
                }
                assert(sta =~= stb);
            },
            _ => {
            },
        }
    }
}

// ---------------------------------------------------------------------
// Laws of the layout pass.
// ---------------------------------------------------------------------

/// Width resolution is idempotent: laying an already-laid-out box out
/// again, against the same container and constraint widths, returns
/// it unchanged.
pub proof fn lemma_layout_idempotent(b: BoxView, cw: ValueView, kw: ValueView)
    ensures
        spec_layout(b, cw, kw) matches Ok(r) ==> spec_layout(r, cw, kw) == Ok::<
            BoxView,
            LayoutError,
        >(r),
{
    match spec_layout(b, cw, kw) {
        Ok(r) => {
            lemma_layout_skel(b, cw, kw);
            lemma_layout_cong(r, b, cw, kw);
            assert(set_offset(r, r.dimensions.box_offset.left, r.dimensions.box_offset.top)
                =~= r);
        },
        Err(_) => {
        },
    }
}

/// Overconstrained: when the width and both margins are declared
/// specific and their total exceeds the container, the right margin
/// absorbs exactly the signed underflow; the width and the left
/// margin keep their declared values.
pub proof fn lemma_overconstrained(w: ValueView, ml: ValueView, mr: ValueView, sum_bp: int, c: int)
    requires
        w.is_specific_length(),
        ml.is_specific_length(),
        mr.is_specific_length(),
        ml.px_or_zero() + mr.px_or_zero() + sum_bp + w.px_or_zero() > c,
    ensures
        resolve_width(w, ml, mr, sum_bp, c).0 == w.px_or_zero(),
        resolve_width(w, ml, mr, sum_bp, c).1 == ml.px_or_zero(),
        resolve_width(w, ml, mr, sum_bp, c).2 == mr.px_or_zero() + (c - (ml.px_or_zero()
            + mr.px_or_zero() + sum_bp + w.px_or_zero())),
{
    reveal(resolve_width);
}

/// Auto-margin centering: with a specific width and both margins
/// `auto`, when the declared total does not exceed the container both
/// resolved margins take half the underflow.
pub proof fn lemma_auto_margin_centering(
    w: ValueView,
    ml: ValueView,
    mr: ValueView,
    sum_bp: int,
    c: int,
)
    requires
        w.is_specific_length(),
        ml.is_auto(),
        mr.is_auto(),
        sum_bp + w.px_or_zero() <= c,
    ensures
        resolve_width(w, ml, mr, sum_bp, c).0 == w.px_or_zero(),
        resolve_width(w, ml, mr, sum_bp, c).1 == (c - (sum_bp + w.px_or_zero())) / 2,
        resolve_width(w, ml, mr, sum_bp, c).2 == (c - (sum_bp + w.px_or_zero())) / 2,
{
    reveal(resolve_width);
}

/// Overconstrained, at the box level: a block-level box with width
/// and both margins declared, their total exceeding its specific
/// container, keeps its declared width and left margin, and its
/// resolved right margin is the declared one plus the (negative)
/// underflow — the overflow never deforms the width.
pub proof fn lemma_overconstrained_box(b: BoxView, cw: ValueView, kw: ValueView)
    requires
        b.box_type matches BoxTypeV::BlockNode(_) || b.box_type matches BoxTypeV::InlineBlockNode(
            _,
        ),
        width_v(b.box_type.props()).is_specific_length(),
        ml_v(b.box_type.props()).is_specific_length(),
        mr_v(b.box_type.props()).is_specific_length(),
        cw.is_specific_length(),
        ml_v(b.box_type.props()).px_or_zero() + mr_v(b.box_type.props()).px_or_zero() + (bl_v(
            b.box_type.props(),
        ).px_or_zero() + br_v(b.box_type.props()).px_or_zero() + pl_v(
            b.box_type.props(),
        ).px_or_zero() + pr_v(b.box_type.props()).px_or_zero()) + width_v(
            b.box_type.props(),
        ).px_or_zero() > cw.px_or_zero(),
    ensures
        spec_layout(b, cw, kw) matches Ok(r) ==> {
            let props = b.box_type.props();
            let total = ml_v(props).px_or_zero() + mr_v(props).px_or_zero() + (bl_v(
                props,
            ).px_or_zero() + br_v(props).px_or_zero() + pl_v(props).px_or_zero() + pr_v(
                props,
            ).px_or_zero()) + width_v(props).px_or_zero();
            &&& r.dimensions.inner.width == width_v(props).px_or_zero()
            &&& r.dimensions.margin.left == ml_v(props).px_or_zero()
            &&& r.dimensions.margin.right == mr_v(props).px_or_zero() + (cw.px_or_zero() - total)
        },
{
    let props = b.box_type.props();
    let sum_bp = bl_v(props).px_or_zero() + br_v(props).px_or_zero() + pl_v(props).px_or_zero()
        + pr_v(props).px_or_zero();
    lemma_overconstrained(width_v(props), ml_v(props), mr_v(props), sum_bp, cw.px_or_zero());
}

/// Auto-margin centering, at the box level: a block-level box with a
/// specific width no wider than its specific container and both
/// margins `auto` resolves both margins to half the underflow.
pub proof fn lemma_centering_box(b: BoxView, cw: ValueView, kw: ValueView)
    requires
        b.box_type matches BoxTypeV::BlockNode(_) || b.box_type matches BoxTypeV::InlineBlockNode(
            _,
        ),
        width_v(b.box_type.props()).is_specific_length(),
        ml_v(b.box_type.props()).is_auto(),
        mr_v(b.box_type.props()).is_auto(),
        cw.is_specific_length(),
        (bl_v(b.box_type.props()).px_or_zero() + br_v(b.box_type.props()).px_or_zero() + pl_v(
            b.box_type.props(),
        ).px_or_zero() + pr_v(b.box_type.props()).px_or_zero()) + width_v(
            b.box_type.props(),
        ).px_or_zero() <= cw.px_or_zero(),
    ensures
        spec_layout(b, cw, kw) matches Ok(r) ==> {
            let props = b.box_type.props();
            let underflow = cw.px_or_zero() - ((bl_v(props).px_or_zero() + br_v(
                props,
            ).px_or_zero() + pl_v(props).px_or_zero() + pr_v(props).px_or_zero()) + width_v(
                props,
            ).px_or_zero());
            &&& r.dimensions.inner.width == width_v(props).px_or_zero()
            &&& r.dimensions.margin.left == underflow / 2
            &&& r.dimensions.margin.right == underflow / 2
        },
{
    let props = b.box_type.props();
    let sum_bp = bl_v(props).px_or_zero() + br_v(props).px_or_zero() + pl_v(props).px_or_zero()
        + pr_v(props).px_or_zero();
    lemma_auto_margin_centering(width_v(props), ml_v(props), mr_v(props), sum_bp, cw.px_or_zero());
}

/// The running height of the stacking pass is the sum of the laid
/// children's margin-box heights.
pub open spec fn sum_margin_heights(cs: Seq<BoxView>) -> int
    decreases cs,
{
    if cs.len() == 0 {
        0
    } else {
        sum_margin_heights(cs.drop_last()) + margin_height_v(cs.last().dimensions)
    }
}

proof fn lemma_stack_sum(cs: Seq<BoxView>, cpass: ValueView, kpass: ValueView)
    ensures
        stack_flow(cs, cpass, kpass) matches Ok(st) ==> st.sum_h == sum_margin_heights(st.out),
    decreases cs,
{
    if cs.len() > 0 {
        lemma_stack_sum(cs.drop_last(), cpass, kpass);
        match stack_flow(cs, cpass, kpass) {
            Ok(st) => {
                let prev = stack_flow(cs.drop_last(), cpass, kpass)->Ok_0;
                assert(st.out.drop_last() =~= prev.out);
            },
            Err(_) => {
            },
        }
    }
}

/// A block-level box with `height: auto`, laid out while its width is
/// not deferred, resolves its content height to the sum of its
/// children's margin-box heights.
pub proof fn lemma_auto_height_is_children_sum(b: BoxView, cw: ValueView, kw: ValueView)
    requires
        b.box_type matches BoxTypeV::BlockNode(_) || b.box_type matches BoxTypeV::InlineBlockNode(
            _,
        ),
        !height_v(b.box_type.props()).is_specific_length(),
        width_v(b.box_type.props()).is_specific_length() || cw.is_specific_length(),
    ensures
        spec_layout(b, cw, kw) matches Ok(r) ==> r.dimensions.inner.height == sum_margin_heights(
            r.children,
        ),
{
    let props = b.box_type.props();
    if flow_sizing_ok(props) {
        let w_v = width_v(props);
        let sum_bp = bl_v(props).px_or_zero() + br_v(props).px_or_zero() + pl_v(
            props,
        ).px_or_zero() + pr_v(props).px_or_zero();
        let rw = if cw.is_specific_length() {
            resolve_width(w_v, ml_v(props), mr_v(props), sum_bp, cw.px_or_zero())
        } else {
            (w_v.px_or_zero(), ml_v(props).px_or_zero(), mr_v(props).px_or_zero())
        };
        let cpass = ValueView::Length(rw.0, crate::css::Unit::Px);
        lemma_stack_sum(b.children, cpass, cpass);
    }
}

/// Line wrapping keeps every line within the constraint: a wrapped
/// child starts its line at the left edge, and any other child's
/// right margin edge stays within the constraint width.  (A single
/// child wider than the constraint thus sits alone on its line.)
pub proof fn lemma_lines_within_constraint(cs: Seq<BoxView>, kw: ValueView, w: int)
    ensures
        lines_stack(cs, kw, w) matches Ok(st) ==> forall|j: int|
            0 <= j < st.out.len() ==> (#[trigger] st.out[j]).dimensions.box_offset.left == 0 || (
            st.out[j].dimensions.box_offset.left + margin_width_v(st.out[j].dimensions) <= w),
    decreases cs,
{
    if cs.len() > 0 {
        lemma_lines_within_constraint(cs.drop_last(), kw, w);
        match lines_stack(cs, kw, w) {
            Ok(st) => {
                let prev = lines_stack(cs.drop_last(), kw, w)->Ok_0;
                assert(st.out.drop_last() =~= prev.out);
                assert forall|j: int|
                    0 <= j < st.out.len() implies (#[trigger] st.out[j]).dimensions.box_offset.left
                    == 0 || (st.out[j].dimensions.box_offset.left + margin_width_v(
                    st.out[j].dimensions,
                ) <= w) by {
                    if j < st.out.len() - 1 {
                        assert(st.out[j] == prev.out[j]);
                    }
                }
            },
            Err(_) => {
            },
        }
    }
}

/// Lines stack downward: every child of an inline run sits at a
/// non-negative line top, its margin box is contained in the run's
/// content height, and committed line heights only grow.
pub proof fn lemma_lines_stack_vertically(cs: Seq<BoxView>, kw: ValueView, w: int)
    ensures
        lines_stack(cs, kw, w) matches Ok(st) ==> 0 <= st.lines_h && 0 <= st.cur_h && forall|
            j: int,
        |
            0 <= j < st.out.len() ==> 0 <= (#[trigger] st.out[j]).dimensions.box_offset.top && (
            st.out[j].dimensions.box_offset.top + margin_height_v(st.out[j].dimensions)
                <= st.lines_h + st.cur_h),
    decreases cs,
{
    if cs.len() > 0 {
        lemma_lines_stack_vertically(cs.drop_last(), kw, w);
        match lines_stack(cs, kw, w) {
            Ok(st) => {
                let prev = lines_stack(cs.drop_last(), kw, w)->Ok_0;
                assert(st.out.drop_last() =~= prev.out);
                assert(st.lines_h + st.cur_h >= prev.lines_h + prev.cur_h);
                assert forall|j: int|
                    0 <= j < st.out.len() implies 0 <= (
                #[trigger] st.out[j]).dimensions.box_offset.top && (
                st.out[j].dimensions.box_offset.top + margin_height_v(st.out[j].dimensions)
                    <= st.lines_h + st.cur_h) by {
                    if j < st.out.len() - 1 {
                        assert(st.out[j] == prev.out[j]);
                    }
                }
            },
            Err(_) => {
            },
        }
    }
}

/// Anonymous-block synthesis: a block whose children display as
/// inline, block, inline becomes a block box whose children are an
/// anonymous block holding the first inline box, the block box, and
/// another anonymous block holding the last inline box.
pub proof fn lemma_anonymous_synthesis(s: crate::style::StyledNodeView)
    requires
        super::model::spec_display(s.props) == super::Display::Block,
        s.children.len() == 3,
        super::model::spec_display(s.children[0].props) == super::Display::Inline,
        super::model::spec_display(s.children[1].props) == super::Display::Block,
        super::model::spec_display(s.children[2].props) == super::Display::Inline,
    ensures
        super::model::spec_build(s) matches Ok(r) && r.box_type == BoxTypeV::BlockNode(s.props)
            && r.children.len() == 3 && r.children[0].box_type is AnonymousBlock
            && r.children[0].children =~~= seq![super::model::spec_build_box(s.children[0])]
            && r.children[1] == super::model::spec_build_box(s.children[1])
            && r.children[2].box_type is AnonymousBlock && r.children[2].children =~~= seq![
            super::model::spec_build_box(s.children[2]),
        ],
{
    let cs = s.children;
    let c01 = cs.drop_last();
    let c0 = c01.drop_last();
    assert(c0.drop_last() =~= Seq::<crate::style::StyledNodeView>::empty());
    assert(c0.last() == cs[0]);
    assert(c01.last() == cs[1]);
    assert(cs.last() == cs[2]);
    let anon0 = BoxView {
        box_type: BoxTypeV::AnonymousBlock,
        dimensions: super::model::DimsV::zero(),
        children: seq![super::model::spec_build_box(cs[0])],
    };
    assert(super::model::spec_build_children(c0.drop_last(), false)
        =~~= Seq::<BoxView>::empty());
    assert(c0.len() == 1);
    assert(super::model::spec_display(c0.last().props) == super::Display::Inline);
    assert(super::model::spec_build_children(c0, false) =~~= Seq::<BoxView>::empty().push(
        BoxView {
            box_type: BoxTypeV::AnonymousBlock,
            dimensions: super::model::DimsV::zero(),
            children: seq![super::model::spec_build_box(c0.last())],
        },
    ));
    assert(super::model::spec_build_children(c0, false) =~~= seq![anon0]);
    let lvl2 = super::model::spec_build_children(c01, false);
    assert(lvl2 =~~= seq![anon0, super::model::spec_build_box(cs[1])]);
    assert(!(super::model::spec_build_box(cs[1]).box_type is AnonymousBlock));
    assert(lvl2.last() == super::model::spec_build_box(cs[1]));
    let lvl3 = super::model::spec_build_children(cs, false);
    assert(lvl3 =~~= seq![
        anon0,
        super::model::spec_build_box(cs[1]),
        BoxView {
            box_type: BoxTypeV::AnonymousBlock,
            dimensions: super::model::DimsV::zero(),
            children: seq![super::model::spec_build_box(cs[2])],
        },
    ]);
}

/// When success is owed: the layout pass succeeds exactly on trees
/// whose reachable sizing properties are all lengths or `auto`, and
/// when it fails the error is always a malformed length.
pub proof fn lemma_layout_ok_iff(b: BoxView, cw: ValueView, kw: ValueView)
    ensures
        spec_layout(b, cw, kw) is Ok <==> super::model::tree_sizing_ok(b),
        spec_layout(b, cw, kw) is Err ==> spec_layout(b, cw, kw) == Err::<BoxView, LayoutError>(
            LayoutError::MalformedLength,
        ),
    decreases b, 3int,
{
    match b.box_type {
        BoxTypeV::InlineNode(_) => {
        },
        BoxTypeV::AnonymousBlock => {
            lemma_ok_lines(b.children, kw, kw.px_or_zero());
        },
        _ => {
            lemma_ok_flow(b, cw, kw);
        },
    }
}

proof fn lemma_ok_flow(b: BoxView, cw: ValueView, kw: ValueView)
    requires
        b.box_type matches BoxTypeV::BlockNode(_) || b.box_type matches BoxTypeV::InlineBlockNode(
            _,
        ),
    ensures
        spec_layout(b, cw, kw) is Ok <==> super::model::tree_sizing_ok(b),
        spec_layout(b, cw, kw) is Err ==> spec_layout(b, cw, kw) == Err::<BoxView, LayoutError>(
            LayoutError::MalformedLength,
        ),
    decreases b, 2int,
{
    let props = b.box_type.props();
    if flow_sizing_ok(props) {
        let w_v = width_v(props);
        let ml0 = ml_v(props).px_or_zero();
        let mr0 = mr_v(props).px_or_zero();
        let sum_bp = bl_v(props).px_or_zero() + br_v(props).px_or_zero() + pl_v(
            props,
        ).px_or_zero() + pr_v(props).px_or_zero();
        if w_v.is_specific_length() || cw.is_specific_length() {
            let rw = if cw.is_specific_length() {
                resolve_width(w_v, ml_v(props), mr_v(props), sum_bp, cw.px_or_zero())
            } else {
                (w_v.px_or_zero(), ml0, mr0)
            };
            let cpass = ValueView::Length(rw.0, crate::css::Unit::Px);
            lemma_ok_stack(b.children, cpass, cpass);
        } else {
            let kpass = ValueView::Length(
                kw.px_or_zero() - (ml0 + mr0 + sum_bp),
                crate::css::Unit::Px,
            );
            lemma_ok_stack(b.children, auto_v(), kpass);
            match stack_flow(b.children, auto_v(), kpass) {
                Ok(st) => {
                    let c2 = st.max_w - (ml0 + mr0 + sum_bp);
                    lemma_stack_skel(b.children, auto_v(), kpass);
                    lemma_ok_relayout(b.children, st.out, c2);
                },
                Err(_) => {
                },
            }
        }
    }
}

proof fn lemma_ok_stack(cs: Seq<BoxView>, cpass: ValueView, kpass: ValueView)
    ensures
        stack_flow(cs, cpass, kpass) is Ok <==> super::model::seq_sizing_ok(cs),
        stack_flow(cs, cpass, kpass) is Err ==> stack_flow(cs, cpass, kpass) == Err::<
            StackState,
            LayoutError,
        >(LayoutError::MalformedLength),
    decreases cs, 1int,
{
    if cs.len() > 0 {
        lemma_ok_stack(cs.drop_last(), cpass, kpass);
        lemma_layout_ok_iff(cs.last(), cpass, kpass);
    }
}

proof fn lemma_ok_lines(cs: Seq<BoxView>, kw: ValueView, w: int)
    ensures
        lines_stack(cs, kw, w) is Ok <==> super::model::seq_sizing_ok(cs),
        lines_stack(cs, kw, w) is Err ==> lines_stack(cs, kw, w) == Err::<
            LinesState,
            LayoutError,
        >(LayoutError::MalformedLength),
    decreases cs, 1int,
{
    if cs.len() > 0 {
        lemma_ok_lines(cs.drop_last(), kw, w);
        lemma_layout_ok_iff(cs.last(), auto_v(), kw);
    }
}

/// Once every child laid out in the measuring pass, the fill pass
/// cannot fail: it only lays the same boxes out again.
proof fn lemma_ok_relayout(orig: Seq<BoxView>, laid: Seq<BoxView>, c2: int)
    requires
        super::model::seq_sizing_ok(orig),
        orig.len() == laid.len(),
    ensures
        relayout_seq(orig, laid, c2) is Ok,
    decreases orig, 1int,
{
    if orig.len() > 0 && laid.len() > 0 {
        lemma_ok_relayout(orig.drop_last(), laid.drop_last(), c2);
        let c2v = ValueView::Length(c2, crate::css::Unit::Px);
        lemma_layout_ok_iff(orig.last(), c2v, c2v);
    }
}

/// Every declared size in the style is non-negative.
pub open spec fn props_nonneg(props: Map<Seq<char>, ValueView>) -> bool {
    &&& width_v(props).px_or_zero() >= 0
    &&& height_v(props).px_or_zero() >= 0
    &&& ml_v(props).px_or_zero() >= 0
    &&& mr_v(props).px_or_zero() >= 0
    &&& mt_v(props).px_or_zero() >= 0
    &&& mb_v(props).px_or_zero() >= 0
    &&& bl_v(props).px_or_zero() >= 0
    &&& br_v(props).px_or_zero() >= 0
    &&& bt_v(props).px_or_zero() >= 0
    &&& bb_v(props).px_or_zero() >= 0
    &&& pl_v(props).px_or_zero() >= 0
    &&& pr_v(props).px_or_zero() >= 0
    &&& pt_v(props).px_or_zero() >= 0
    &&& pb_v(props).px_or_zero() >= 0
    &&& msw_v(props).px_or_zero() >= 0
    &&& msh_v(props).px_or_zero() >= 0
}

/// Every style in the subtree declares only non-negative sizes.
pub open spec fn styles_nonneg(b: BoxView) -> bool
    decreases b, 1int,
{
    (b.box_type.has_style() ==> props_nonneg(b.box_type.props())) && styles_nonneg_seq(b.children)
}

pub open spec fn styles_nonneg_seq(s: Seq<BoxView>) -> bool
    decreases s, 0int,
{
    s.len() == 0 || (styles_nonneg_seq(s.drop_last()) && styles_nonneg(s.last()))
}

pub open spec fn padding_box_width(d: super::model::DimsV) -> int {
    d.inner.width + d.padding.left + d.padding.right
}

pub open spec fn border_box_width(d: super::model::DimsV) -> int {
    padding_box_width(d) + d.border.left + d.border.right
}

/// The width axis of a box nests: non-negative content, and
/// non-negative padding and border rings.
pub open spec fn widths_nested(d: super::model::DimsV) -> bool {
    &&& 0 <= d.inner.width
    &&& 0 <= d.padding.left
    &&& 0 <= d.padding.right
    &&& 0 <= d.border.left
    &&& 0 <= d.border.right
}

pub open spec fn nested_tree(b: BoxView) -> bool
    decreases b, 1int,
{
    widths_nested(b.dimensions) && nested_seq(b.children)
}

pub open spec fn nested_seq(s: Seq<BoxView>) -> bool
    decreases s, 0int,
{
    s.len() == 0 || (nested_seq(s.drop_last()) && nested_tree(s.last()))
}

/// The nesting chain itself: each successive box on the width axis is
/// at least as wide as the one inside it; the margin box joins the
/// chain wherever the resolved horizontal margins are non-negative
/// (the overconstrained policy can drive the right margin negative).
pub proof fn lemma_nesting_chain(d: super::model::DimsV)
    requires
        widths_nested(d),
    ensures
        0 <= d.inner.width,
        d.inner.width <= padding_box_width(d),
        padding_box_width(d) <= border_box_width(d),
        d.margin.left >= 0 && d.margin.right >= 0 ==> border_box_width(d) <= margin_width_v(d),
{
}

/// Laying out a tree whose declared sizes are non-negative, starting
/// from nested geometry, yields nested geometry in every box.
pub proof fn lemma_layout_nested(b: BoxView, cw: ValueView, kw: ValueView)
    requires
        styles_nonneg(b),
        nested_tree(b),
    ensures
        spec_layout(b, cw, kw) matches Ok(r) ==> nested_tree(r),
    decreases b, 3int,
{
    match b.box_type {
        BoxTypeV::InlineNode(props) => {
            match spec_layout(b, cw, kw) {
                Ok(r) => {
                    assert(r.dimensions.inner.width == msw_v(props).px_or_zero());
                    assert(widths_nested(r.dimensions));
                    assert(nested_seq(r.children));
                },
                Err(_) => {
                },
            }
        },
        BoxTypeV::AnonymousBlock => {
            lemma_lines_bounds(b.children, kw, kw.px_or_zero());
            lemma_nested_lines(b.children, kw, kw.px_or_zero());
            match spec_layout(b, cw, kw) {
                Ok(r) => {
                    let st = lines_stack(b.children, kw, kw.px_or_zero())->Ok_0;
                    assert(r.dimensions.inner.width == imax(st.lines_w, st.cur_w));
                    assert(r.dimensions.inner.width >= st.lines_w >= 0);
                    assert(widths_nested(r.dimensions));
                    assert(nested_seq(r.children));
                },
                Err(_) => {
                },
            }
        },
        _ => {
            lemma_nested_flow(b, cw, kw);
        },
    }
}

#[verifier::rlimit(60)]
proof fn lemma_nested_flow(b: BoxView, cw: ValueView, kw: ValueView)
    requires
        styles_nonneg(b),
        nested_tree(b),
        b.box_type matches BoxTypeV::BlockNode(_) || b.box_type matches BoxTypeV::InlineBlockNode(
            _,
        ),
    ensures
        spec_layout(b, cw, kw) matches Ok(r) ==> nested_tree(r),
    decreases b, 2int,
{
    reveal(resolve_width);
    let props = b.box_type.props();
    if flow_sizing_ok(props) {
        let w_v = width_v(props);
        let ml0 = ml_v(props).px_or_zero();
        let mr0 = mr_v(props).px_or_zero();
        let sum_bp = bl_v(props).px_or_zero() + br_v(props).px_or_zero() + pl_v(
            props,
        ).px_or_zero() + pr_v(props).px_or_zero();
        if w_v.is_specific_length() || cw.is_specific_length() {
            let rw = if cw.is_specific_length() {
                resolve_width(w_v, ml_v(props), mr_v(props), sum_bp, cw.px_or_zero())
            } else {
                (w_v.px_or_zero(), ml0, mr0)
            };
            let cpass = ValueView::Length(rw.0, crate::css::Unit::Px);
            lemma_nested_stack(b.children, cpass, cpass);
            assert(rw.0 >= 0);
            match spec_layout(b, cw, kw) {
                Ok(r) => {
                    assert(r.dimensions.inner.width == rw.0);
                    assert(widths_nested(r.dimensions));
                    assert(nested_seq(r.children));
                },
                Err(_) => {
                },
            }
        } else {
            let kpass = ValueView::Length(
                kw.px_or_zero() - (ml0 + mr0 + sum_bp),
                crate::css::Unit::Px,
            );
            lemma_nested_stack(b.children, auto_v(), kpass);
            lemma_stack_bounds(b.children, auto_v(), kpass);
            match stack_flow(b.children, auto_v(), kpass) {
                Ok(st) => {
                    let c2 = st.max_w - (ml0 + mr0 + sum_bp);
                    lemma_stack_skel(b.children, auto_v(), kpass);
                    lemma_nested_relayout(b.children, st.out, c2);
                    match spec_layout(b, cw, kw) {
                        Ok(r) => {
                            assert(r.dimensions.inner.width == st.max_w >= 0);
                            assert(widths_nested(r.dimensions));
                            assert(nested_seq(r.children));
                        },
                        Err(_) => {
                        },
                    }
                },
                Err(_) => {
                },
            }
        }
    }
}

proof fn lemma_nested_stack(cs: Seq<BoxView>, cpass: ValueView, kpass: ValueView)
    requires
        styles_nonneg_seq(cs),
        nested_seq(cs),
    ensures
        stack_flow(cs, cpass, kpass) matches Ok(st) ==> nested_seq(st.out),
    decreases cs, 1int,
{
    if cs.len() > 0 {
        lemma_nested_stack(cs.drop_last(), cpass, kpass);
        lemma_layout_nested(cs.last(), cpass, kpass);
        match stack_flow(cs, cpass, kpass) {
            Ok(st) => {
                let prev = stack_flow(cs.drop_last(), cpass, kpass)->Ok_0;
                let c1 = spec_layout(cs.last(), cpass, kpass)->Ok_0;
                let placed = set_offset(c1, 0, prev.sum_h);
                assert(widths_nested(placed.dimensions) == widths_nested(c1.dimensions));
                assert(nested_tree(placed));
                assert(st.out.drop_last() =~= prev.out);
                assert(st.out.last() == placed);
                assert(nested_seq(st.out));
            },
            Err(_) => {
            },
        }
    }
}

proof fn lemma_nested_lines(cs: Seq<BoxView>, kw: ValueView, w: int)
    requires
        styles_nonneg_seq(cs),
        nested_seq(cs),
    ensures
        lines_stack(cs, kw, w) matches Ok(st) ==> nested_seq(st.out),
    decreases cs, 1int,
{
    if cs.len() > 0 {
        lemma_nested_lines(cs.drop_last(), kw, w);
        lemma_layout_nested(cs.last(), auto_v(), kw);
        match lines_stack(cs, kw, w) {
            Ok(st) => {
                let prev = lines_stack(cs.drop_last(), kw, w)->Ok_0;
                let c1 = spec_layout(cs.last(), auto_v(), kw)->Ok_0;
                let mw = margin_width_v(c1.dimensions);
                let placed = if prev.cur_w + mw > w {
                    set_offset(c1, 0, prev.lines_h + prev.cur_h)
                } else {
                    set_offset(c1, prev.cur_w, prev.lines_h)
                };
                assert(widths_nested(placed.dimensions) == widths_nested(c1.dimensions));
                assert(nested_tree(placed));
                assert(st.out.drop_last() =~= prev.out);
                assert(st.out.last() == placed);
                assert(nested_seq(st.out));
            },
            Err(_) => {
            },
        }
    }
}

proof fn lemma_nested_relayout(orig: Seq<BoxView>, laid: Seq<BoxView>, c2: int)
    requires
        styles_nonneg_seq(orig),
        nested_seq(orig),
        nested_seq(laid),
    ensures
        relayout_seq(orig, laid, c2) matches Ok(cs2) ==> nested_seq(cs2),
    decreases orig, 1int,
{
    if orig.len() > 0 && laid.len() > 0 {
        lemma_nested_relayout(orig.drop_last(), laid.drop_last(), c2);
        let c2v = ValueView::Length(c2, crate::css::Unit::Px);
        lemma_layout_nested(orig.last(), c2v, c2v);
        match relayout_seq(orig, laid, c2) {
            Ok(cs2) => {
                let prev = relayout_seq(orig.drop_last(), laid.drop_last(), c2)->Ok_0;
                assert(cs2.drop_last() =~= prev);
                if needs_relayout(orig.last()) {
                    let nb = spec_layout(orig.last(), c2v, c2v)->Ok_0;
                    let placed = set_offset(
                        nb,
                        laid.last().dimensions.box_offset.left,
                        laid.last().dimensions.box_offset.top,
                    );
                    assert(widths_nested(placed.dimensions) == widths_nested(nb.dimensions));
                    assert(nested_tree(placed));
                    assert(cs2.last() == placed);
                } else {
                    assert(nested_tree(laid.last()));
                    assert(cs2.last() == laid.last());
                }
                assert(nested_seq(cs2));
            },
            Err(_) => {
            },
        }
    }
}

proof fn lemma_relayout_cong(oa: Seq<BoxView>, la: Seq<BoxView>, ob: Seq<BoxView>, lb: Seq<
    BoxView,
>, c2: int)
    requires
        similar_seq(oa, ob),
        la == lb,
    ensures
        relayout_seq(oa, la, c2) == relayout_seq(ob, lb, c2),
    decreases oa, 1int,
{
    assert(oa.len() == ob.len());
    if oa.len() > 0 && la.len() > 0 {
        lemma_relayout_cong(oa.drop_last(), la.drop_last(), ob.drop_last(), lb.drop_last(), c2);
        let c2v = ValueView::Length(c2, crate::css::Unit::Px);
        assert(similar(oa.last(), ob.last()));
        lemma_layout_cong(oa.last(), ob.last(), c2v, c2v);
        assert(needs_relayout(oa.last()) == needs_relayout(ob.last()));
        if needs_relayout(oa.last()) {
            match spec_layout(ob.last(), c2v, c2v) {
                Ok(nbb) => {
                    let nba = spec_layout(oa.last(), c2v, c2v)->Ok_0;
                    assert(nba == set_offset(
                        nbb,
                        oa.last().dimensions.box_offset.left,
                        oa.last().dimensions.box_offset.top,
                    ));
                    assert(set_offset(
                        nba,
                        la.last().dimensions.box_offset.left,
                        la.last().dimensions.box_offset.top,
                    ) =~= set_offset(
                        nbb,
                        lb.last().dimensions.box_offset.left,
                        lb.last().dimensions.box_offset.top,
                    ));
                },
                Err(_) => {
                },
            }
        }
    }
}

} // verus!
