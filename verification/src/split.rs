//! The pane topology: a binary tree of splits whose leaves are panes, and its
//! layout as rectangles that tile a square.
//!
//! Lengths are whole numbers. The laid-out area is a square of side [`UNIT`];
//! a split ratio is counted in thousandths, from [`RATIO_MIN`] to
//! [`RATIO_MAX`].

use vstd::prelude::*;

verus! {

pub type PaneId = u64;

/// Side of the square that a layout tiles.
pub const UNIT: u64 = 1_000_000_000;

/// The denominator of a ratio.
pub const RATIO_ONE: u64 = 1000;

/// The smallest ratio, one tenth.
pub const RATIO_MIN: u64 = 100;

/// The largest ratio, nine tenths.
pub const RATIO_MAX: u64 = 900;

/// The ratio of a fresh split, one half.
pub const RATIO_HALF: u64 = 500;

#[derive(Debug, Clone, Copy, PartialEq, Eq, Structural, Hash)]
pub enum SplitDirection {
    /// Left and right.
    Horizontal,
    /// Top and bottom.
    Vertical,
}

/// A rectangle inside the layout square.
#[derive(Debug, Clone, Copy, PartialEq, Eq, Structural)]
pub struct PaneRect {
    pub x: u64,
    pub y: u64,
    pub width: u64,
    pub height: u64,
}

#[derive(Debug)]
pub enum SplitNode {
    Leaf(PaneId),
    Split { direction: SplitDirection, ratio: u64, first: Box<SplitNode>, second: Box<SplitNode> },
}

#[derive(Debug)]
pub struct SplitTree {
    pub root: SplitNode,
}

/// Every ratio of the tree lies between one tenth and nine tenths.
pub open spec fn node_wf(node: SplitNode) -> bool
    decreases node,
{
    match node {
        SplitNode::Leaf(_) => true,
        SplitNode::Split { direction, ratio, first, second } => RATIO_MIN <= ratio <= RATIO_MAX
            && node_wf(*first) && node_wf(*second),
    }
}

/// The panes of a tree, first child before second.
pub open spec fn leaves(node: SplitNode) -> Seq<PaneId>
    decreases node,
{
    match node {
        SplitNode::Leaf(id) => seq![id],
        SplitNode::Split { direction, ratio, first, second } => leaves(*first) + leaves(*second),
    }
}

/// The number of splits on the longest path from the root to a pane.
pub open spec fn depth(node: SplitNode) -> nat
    decreases node,
{
    match node {
        SplitNode::Leaf(_) => 0,
        SplitNode::Split { direction, ratio, first, second } => {
            let a = depth(*first);
            let b = depth(*second);
            1 + if a >= b { a } else { b }
        },
    }
}

/// The tree in which the first pane `target` has become a split of itself and
/// `new_pane`; the tree itself where `target` is no pane of it.
pub open spec fn split_result(
    node: SplitNode,
    target: PaneId,
    direction: SplitDirection,
    new_pane: PaneId,
) -> SplitNode
    decreases node,
{
    match node {
        SplitNode::Leaf(id) => if id == target {
            SplitNode::Split {
                direction,
                ratio: RATIO_HALF,
                first: Box::new(SplitNode::Leaf(id)),
                second: Box::new(SplitNode::Leaf(new_pane)),
            }
        } else {
            node
        },
        SplitNode::Split { direction: d, ratio, first, second } => if leaves(*first).contains(
            target,
        ) {
            SplitNode::Split {
                direction: d,
                ratio,
                first: Box::new(split_result(*first, target, direction, new_pane)),
                second,
            }
        } else {
            SplitNode::Split {
                direction: d,
                ratio,
                first,
                second: Box::new(split_result(*second, target, direction, new_pane)),
            }
        },
    }
}

/// Whether removing `pane` from below `node` succeeds: some split below has
/// `pane` as one of its two children.
pub open spec fn removable(node: SplitNode, pane: PaneId) -> bool {
    node is Split && leaves(node).contains(pane)
}

/// The tree without `pane`: the split that has the pane as a child gives way
/// to the other child. A split looks at its own two children before it
/// descends, first child first.
pub open spec fn remove_result(node: SplitNode, pane: PaneId) -> SplitNode
    decreases node,
{
    match node {
        SplitNode::Leaf(_) => node,
        SplitNode::Split { direction, ratio, first, second } => if *first == SplitNode::Leaf(
            pane,
        ) {
            *second
        } else if *second == SplitNode::Leaf(pane) {
            *first
        } else if removable(*first, pane) {
            SplitNode::Split {
                direction,
                ratio,
                first: Box::new(remove_result(*first, pane)),
                second,
            }
        } else if removable(*second, pane) {
            SplitNode::Split {
                direction,
                ratio,
                first,
                second: Box::new(remove_result(*second, pane)),
            }
        } else {
            node
        },
    }
}

/// `ratio + delta`, kept between one tenth and nine tenths.
pub open spec fn clamped_ratio(ratio: u64, delta: i64) -> u64 {
    let sum = ratio as int + delta as int;
    if sum < RATIO_MIN as int {
        RATIO_MIN
    } else if sum > RATIO_MAX as int {
        RATIO_MAX
    } else {
        sum as u64
    }
}

/// The tree in which the split closest to `pane` on the way down from the
/// root has its ratio moved by `delta`. Where both children hold the pane the
/// first is followed.
pub open spec fn adjust_result(node: SplitNode, pane: PaneId, delta: i64) -> SplitNode
    decreases node,
{
    match node {
        SplitNode::Leaf(_) => node,
        SplitNode::Split { direction, ratio, first, second } => if leaves(*first).contains(pane) {
            if *first is Split {
                SplitNode::Split {
                    direction,
                    ratio,
                    first: Box::new(adjust_result(*first, pane, delta)),
                    second,
                }
            } else {
                SplitNode::Split { direction, ratio: clamped_ratio(ratio, delta), first, second }
            }
        } else if leaves(*second).contains(pane) {
            if *second is Split {
                SplitNode::Split {
                    direction,
                    ratio,
                    first,
                    second: Box::new(adjust_result(*second, pane, delta)),
                }
            } else {
                SplitNode::Split { direction, ratio: clamped_ratio(ratio, delta), first, second }
            }
        } else {
            node
        },
    }
}

/// The part of `rect` that the first child of a split gets.
pub open spec fn first_part(rect: PaneRect, direction: SplitDirection, ratio: u64) -> PaneRect {
    match direction {
        SplitDirection::Horizontal => PaneRect {
            x: rect.x,
            y: rect.y,
            width: (rect.width as int * ratio as int / RATIO_ONE as int) as u64,
            height: rect.height,
        },
        SplitDirection::Vertical => PaneRect {
            x: rect.x,
            y: rect.y,
            width: rect.width,
            height: (rect.height as int * ratio as int / RATIO_ONE as int) as u64,
        },
    }
}

/// The part of `rect` that the second child of a split gets: the rest.
pub open spec fn second_part(rect: PaneRect, direction: SplitDirection, ratio: u64) -> PaneRect {
    let f = first_part(rect, direction, ratio);
    match direction {
        SplitDirection::Horizontal => PaneRect {
            x: (rect.x + f.width) as u64,
            y: rect.y,
            width: (rect.width - f.width) as u64,
            height: rect.height,
        },
        SplitDirection::Vertical => PaneRect {
            x: rect.x,
            y: (rect.y + f.height) as u64,
            width: rect.width,
            height: (rect.height - f.height) as u64,
        },
    }
}

/// The panes of a tree with their rectangles when the tree fills `rect`.
pub open spec fn layout_of(node: SplitNode, rect: PaneRect) -> Seq<(PaneId, PaneRect)>
    decreases node,
{
    match node {
        SplitNode::Leaf(id) => seq![(id, rect)],
        SplitNode::Split { direction, ratio, first, second } => layout_of(
            *first,
            first_part(rect, direction, ratio),
        ) + layout_of(*second, second_part(rect, direction, ratio)),
    }
}

/// The whole layout square.
pub open spec fn unit_square() -> PaneRect {
    PaneRect { x: 0, y: 0, width: UNIT, height: UNIT }
}

pub open spec fn rect_in_bounds(r: PaneRect) -> bool {
    r.x + r.width <= UNIT && r.y + r.height <= UNIT
}

/// `inner` lies within `outer`.
pub open spec fn rect_inside(inner: PaneRect, outer: PaneRect) -> bool {
    outer.x <= inner.x && inner.x + inner.width <= outer.x + outer.width && outer.y <= inner.y
        && inner.y + inner.height <= outer.y + outer.height
}

/// The two rectangles share no area.
pub open spec fn rects_disjoint(a: PaneRect, b: PaneRect) -> bool {
    a.x + a.width <= b.x || b.x + b.width <= a.x || a.y + a.height <= b.y || b.y + b.height
        <= a.y
}

pub open spec fn rect_area(r: PaneRect) -> int {
    r.width as int * r.height as int
}

/// The sum of the areas of the rectangles of a layout.
pub open spec fn total_area(items: Seq<(PaneId, PaneRect)>) -> int
    decreases items.len(),
{
    if items.len() == 0 {
        0
    } else {
        total_area(items.drop_last()) + rect_area(items.last().1)
    }
}

/// The pane ids of a layout, in its order.
pub open spec fn layout_ids(items: Seq<(PaneId, PaneRect)>) -> Seq<PaneId> {
    items.map_values(|p: (PaneId, PaneRect)| p.0)
}

/// The rectangles lie within `rect`, no two share area, and together they
/// have the area of `rect`.
pub open spec fn tiles(items: Seq<(PaneId, PaneRect)>, rect: PaneRect) -> bool {
    &&& forall|i: int| 0 <= i < items.len() ==> rect_inside(#[trigger] items[i].1, rect)
    &&& forall|i: int, j: int|
        0 <= i < j < items.len() ==> rects_disjoint(#[trigger] items[i].1, #[trigger] items[j].1)
    &&& total_area(items) == rect_area(rect)
}

/// Ten to the power `d`.
pub open spec fn pow10(d: nat) -> int
    decreases d,
{
    if d == 0 {
        1
    } else {
        10 * pow10((d - 1) as nat)
    }
}

/// The index of the first `x` in `s`; the length of `s` where there is none.
pub open spec fn first_index(s: Seq<PaneId>, x: PaneId) -> int
    decreases s.len(),
{
    if s.len() == 0 {
        0
    } else if s[0] == x {
        0
    } else {
        1 + first_index(s.drop_first(), x)
    }
}

/// The pane after `current` in `ids`, the first after the last.
pub open spec fn next_in(ids: Seq<PaneId>, current: PaneId) -> Option<PaneId> {
    if ids.contains(current) {
        Some(ids[(first_index(ids, current) + 1) % (ids.len() as int)])
    } else {
        None
    }
}

/// The pane before `current` in `ids`, the last before the first.
pub open spec fn prev_in(ids: Seq<PaneId>, current: PaneId) -> Option<PaneId> {
    if ids.contains(current) {
        Some(ids[(first_index(ids, current) + ids.len() - 1) % (ids.len() as int)])
    } else {
        None
    }
}

pub proof fn lemma_first_index(s: Seq<PaneId>, x: PaneId, i: int)
    requires
        0 <= i <= s.len(),
        forall|j: int| 0 <= j < i ==> s[j] != x,
        i < s.len() ==> s[i] == x,
    ensures
        first_index(s, x) == i,
        s.contains(x) <==> i < s.len(),
    decreases i,
{
    if i > 0 {
        let t = s.drop_first();
        assert forall|j: int| 0 <= j < i - 1 implies t[j] != x by {
            assert(t[j] == s[j + 1]);
        }
        lemma_first_index(t, x, i - 1);
    }
    if i < s.len() {
        assert(s[i] == x);
    }
}

pub proof fn lemma_total_area_concat(a: Seq<(PaneId, PaneRect)>, b: Seq<(PaneId, PaneRect)>)
    ensures
        total_area(a + b) == total_area(a) + total_area(b),
    decreases b.len(),
{
    if b.len() == 0 {
        assert(a + b =~= a);
    } else {
        assert((a + b).drop_last() =~= a + b.drop_last());
        lemma_total_area_concat(a, b.drop_last());
    }
}

/// Both parts of a split lie in the split's rectangle, share no area and
/// have its area together.
pub proof fn lemma_parts(rect: PaneRect, direction: SplitDirection, ratio: u64)
    requires
        RATIO_MIN <= ratio <= RATIO_MAX,
        rect_in_bounds(rect),
    ensures
        rect_inside(first_part(rect, direction, ratio), rect),
        rect_inside(second_part(rect, direction, ratio), rect),
        rects_disjoint(first_part(rect, direction, ratio), second_part(rect, direction, ratio)),
        rect_area(first_part(rect, direction, ratio)) + rect_area(
            second_part(rect, direction, ratio),
        ) == rect_area(rect),
        rect_in_bounds(first_part(rect, direction, ratio)),
        rect_in_bounds(second_part(rect, direction, ratio)),
{
    let w = rect.width as int;
    let h = rect.height as int;
    let r = ratio as int;
    assert(0 <= w * r / 1000 <= w) by (nonlinear_arith)
        requires
            0 <= w,
            100 <= r <= 900,
    ;
    assert(0 <= h * r / 1000 <= h) by (nonlinear_arith)
        requires
            0 <= h,
            100 <= r <= 900,
    ;
    let fw = w * r / 1000;
    let fh = h * r / 1000;
    assert(fw * h + (w - fw) * h == w * h) by (nonlinear_arith);
    assert(w * fh + w * (h - fh) == w * h) by (nonlinear_arith);
}

/// Where a side is at least `10^(d+1)`, both parts of it are at least `10^d`.
pub proof fn lemma_parts_wide(len: int, ratio: u64, d: nat)
    requires
        RATIO_MIN <= ratio <= RATIO_MAX,
        len >= pow10(d + 1),
    ensures
        len * ratio as int / 1000 >= pow10(d),
        len - len * ratio as int / 1000 >= pow10(d),
{
    let r = ratio as int;
    let p = pow10(d);
    assert(pow10(d + 1) == 10 * p);
    lemma_pow10_positive(d);
    assert(len * r / 1000 >= p && len - len * r / 1000 >= p) by (nonlinear_arith)
        requires
            len >= 10 * p,
            100 <= r <= 900,
            p >= 0,
    ;
}

pub proof fn lemma_pow10_positive(d: nat)
    ensures
        pow10(d) >= 1,
    decreases d,
{
    if d > 0 {
        lemma_pow10_positive((d - 1) as nat);
    }
}

pub proof fn lemma_pow10_monotonic(a: nat, b: nat)
    requires
        a <= b,
    ensures
        pow10(a) <= pow10(b),
    decreases b,
{
    if a < b {
        lemma_pow10_monotonic(a, (b - 1) as nat);
        lemma_pow10_positive((b - 1) as nat);
    }
}

/// The layout of a tree in a rectangle names the panes of the tree in their
/// order and tiles the rectangle.
pub proof fn lemma_layout_tiles(node: SplitNode, rect: PaneRect)
    requires
        node_wf(node),
        rect_in_bounds(rect),
    ensures
        layout_ids(layout_of(node, rect)) == leaves(node),
        tiles(layout_of(node, rect), rect),
    decreases node,
{
    match node {
        SplitNode::Leaf(id) => {
            let l = layout_of(node, rect);
            assert(layout_ids(l) =~= leaves(node));
            assert(l.drop_last() =~= Seq::<(PaneId, PaneRect)>::empty());
            assert(total_area(l.drop_last()) == 0);
            assert(l.last().1 == rect);
            assert(total_area(l) == rect_area(rect));
        },
        SplitNode::Split { direction, ratio, first, second } => {
            let r1 = first_part(rect, direction, ratio);
            let r2 = second_part(rect, direction, ratio);
            lemma_parts(rect, direction, ratio);
            lemma_layout_tiles(*first, r1);
            lemma_layout_tiles(*second, r2);
            let a = layout_of(*first, r1);
            let b = layout_of(*second, r2);
            let l = layout_of(node, rect);
            assert(l == a + b);
            assert(layout_ids(l) =~= layout_ids(a) + layout_ids(b));
            lemma_total_area_concat(a, b);
            assert forall|i: int| 0 <= i < l.len() implies rect_inside(#[trigger] l[i].1, rect) by {
                if i < a.len() {
                    assert(rect_inside(a[i].1, r1));
                } else {
                    assert(rect_inside(b[i - a.len()].1, r2));
                }
            }
            assert forall|i: int, j: int| 0 <= i < j < l.len() implies rects_disjoint(
                #[trigger] l[i].1,
                #[trigger] l[j].1,
            ) by {
                if j < a.len() {
                    assert(rects_disjoint(a[i].1, a[j].1));
                } else if i >= a.len() {
                    assert(rects_disjoint(b[i - a.len()].1, b[j - a.len()].1));
                } else {
                    assert(rect_inside(a[i].1, r1));
                    assert(rect_inside(b[j - a.len()].1, r2));
                }
            }
        },
    }
}

/// Every rectangle of a layout has positive width and height.
pub open spec fn all_positive(items: Seq<(PaneId, PaneRect)>) -> bool {
    forall|i: int| 0 <= i < items.len() ==> (#[trigger] items[i]).1.width > 0 && items[i].1.height > 0
}

/// The tree has room in the rectangle: whole lengths are cut at each split,
/// and no cut leaves a pane without width or height.
pub open spec fn roomy(node: SplitNode, rect: PaneRect) -> bool
    decreases node,
{
    match node {
        SplitNode::Leaf(_) => rect.width > 0 && rect.height > 0,
        SplitNode::Split { direction, ratio, first, second } => roomy(
            *first,
            first_part(rect, direction, ratio),
        ) && roomy(*second, second_part(rect, direction, ratio)),
    }
}

/// The panes of a layout have positive width and height exactly where the
/// tree has room in the rectangle.
pub proof fn lemma_roomy(node: SplitNode, rect: PaneRect)
    ensures
        roomy(node, rect) <==> all_positive(layout_of(node, rect)),
    decreases node,
{
    match node {
        SplitNode::Leaf(id) => {
            let l = layout_of(node, rect);
            assert(l[0].1 == rect);
        },
        SplitNode::Split { direction, ratio, first, second } => {
            let r1 = first_part(rect, direction, ratio);
            let r2 = second_part(rect, direction, ratio);
            lemma_roomy(*first, r1);
            lemma_roomy(*second, r2);
            let a = layout_of(*first, r1);
            let b = layout_of(*second, r2);
            let l = layout_of(node, rect);
            assert(l == a + b);
            if all_positive(a) && all_positive(b) {
                assert forall|i: int| 0 <= i < l.len() implies (#[trigger] l[i]).1.width > 0
                    && l[i].1.height > 0 by {
                    if i < a.len() {
                        assert(l[i] == a[i]);
                    } else {
                        assert(l[i] == b[i - a.len()]);
                    }
                }
            }
            if all_positive(l) {
                assert forall|i: int| 0 <= i < a.len() implies (#[trigger] a[i]).1.width > 0
                    && a[i].1.height > 0 by {
                    assert(l[i] == a[i]);
                }
                assert forall|i: int| 0 <= i < b.len() implies (#[trigger] b[i]).1.width > 0
                    && b[i].1.height > 0 by {
                    assert(l[a.len() + i] == b[i]);
                }
            }
        },
    }
}

/// Where both sides of the rectangle are at least ten to the power of the
/// tree's depth, every pane gets a rectangle of positive width and height.
pub proof fn lemma_layout_positive(node: SplitNode, rect: PaneRect)
    requires
        node_wf(node),
        rect_in_bounds(rect),
        rect.width >= pow10(depth(node)),
        rect.height >= pow10(depth(node)),
    ensures
        forall|i: int|
            0 <= i < layout_of(node, rect).len() ==> (#[trigger] layout_of(node, rect)[i]).1.width
                > 0 && layout_of(node, rect)[i].1.height > 0,
    decreases node,
{
    match node {
        SplitNode::Leaf(id) => {},
        SplitNode::Split { direction, ratio, first, second } => {
            let r1 = first_part(rect, direction, ratio);
            let r2 = second_part(rect, direction, ratio);
            let d = (depth(node) - 1) as nat;
            lemma_parts(rect, direction, ratio);
            lemma_parts_wide(rect.width as int, ratio, d);
            lemma_parts_wide(rect.height as int, ratio, d);
            lemma_pow10_monotonic(d, depth(node));
            lemma_pow10_monotonic(depth(*first), d);
            lemma_pow10_monotonic(depth(*second), d);
            lemma_layout_positive(*first, r1);
            lemma_layout_positive(*second, r2);
            let a = layout_of(*first, r1);
            let b = layout_of(*second, r2);
            let l = layout_of(node, rect);
            assert(l == a + b);
            assert forall|i: int| 0 <= i < l.len() implies (#[trigger] l[i]).1.width > 0
                && l[i].1.height > 0 by {
                if i < a.len() {
                    assert(l[i] == a[i]);
                } else {
                    assert(l[i] == b[i - a.len()]);
                }
            }
        },
    }
}


fn clone_node(node: &SplitNode) -> (r: SplitNode)
    ensures
        r == *node,
    decreases *node,
{
    match node {
        SplitNode::Leaf(id) => SplitNode::Leaf(*id),
        SplitNode::Split { direction, ratio, first, second } => SplitNode::Split {
            direction: *direction,
            ratio: *ratio,
            first: Box::new(clone_node(first)),
            second: Box::new(clone_node(second)),
        },
    }
}

fn node_contains(node: &SplitNode, pane: PaneId) -> (b: bool)
    ensures
        b == leaves(*node).contains(pane),
    decreases *node,
{
    match node {
        SplitNode::Leaf(id) => {
            assert(leaves(*node)[0] == *id);
            *id == pane
        },
        SplitNode::Split { direction, ratio, first, second } => {
            let a = node_contains(first, pane);
            let b = node_contains(second, pane);
            proof {
                let l1 = leaves(**first);
                let l2 = leaves(**second);
                if a {
                    let i = choose|i: int| 0 <= i < l1.len() && l1[i] == pane;
                    assert((l1 + l2)[i] == pane);
                }
                if b {
                    let i = choose|i: int| 0 <= i < l2.len() && l2[i] == pane;
                    assert((l1 + l2)[l1.len() + i] == pane);
                }
            }
            a || b
        },
    }
}

fn split_node(node: &SplitNode, target: PaneId, direction: SplitDirection, new_pane: PaneId) -> (r:
    (SplitNode, bool))
    ensures
        r.0 == split_result(*node, target, direction, new_pane),
        r.1 == leaves(*node).contains(target),
    decreases *node,
{
    match node {
        SplitNode::Leaf(id) => {
            assert(leaves(*node)[0] == *id);
            if *id == target {
                (
                    SplitNode::Split {
                        direction,
                        ratio: RATIO_HALF,
                        first: Box::new(SplitNode::Leaf(*id)),
                        second: Box::new(SplitNode::Leaf(new_pane)),
                    },
                    true,
                )
            } else {
                (SplitNode::Leaf(*id), false)
            }
        },
        SplitNode::Split { direction: d, ratio, first, second } => {
            let (nf, found) = split_node(first, target, direction, new_pane);
            if found {
                proof {
                    let l1 = leaves(**first);
                    let i = choose|i: int| 0 <= i < l1.len() && l1[i] == target;
                    assert((l1 + leaves(**second))[i] == target);
                }
                (
                    SplitNode::Split {
                        direction: *d,
                        ratio: *ratio,
                        first: Box::new(nf),
                        second: Box::new(clone_node(second)),
                    },
                    true,
                )
            } else {
                let (ns, found2) = split_node(second, target, direction, new_pane);
                proof {
                    let l1 = leaves(**first);
                    let l2 = leaves(**second);
                    if found2 {
                        let i = choose|i: int| 0 <= i < l2.len() && l2[i] == target;
                        assert((l1 + l2)[l1.len() + i] == target);
                    }
                }
                (
                    SplitNode::Split {
                        direction: *d,
                        ratio: *ratio,
                        first: Box::new(clone_node(first)),
                        second: Box::new(ns),
                    },
                    found2,
                )
            }
        },
    }
}

fn is_leaf_of(node: &SplitNode, pane: PaneId) -> (b: bool)
    ensures
        b == (*node == SplitNode::Leaf(pane)),
{
    match node {
        SplitNode::Leaf(id) => *id == pane,
        SplitNode::Split { .. } => false,
    }
}

proof fn lemma_leaves_concat_contains(a: Seq<PaneId>, b: Seq<PaneId>, x: PaneId)
    ensures
        (a + b).contains(x) <==> a.contains(x) || b.contains(x),
{
    if a.contains(x) {
        let i = choose|i: int| 0 <= i < a.len() && a[i] == x;
        assert((a + b)[i] == x);
    }
    if b.contains(x) {
        let i = choose|i: int| 0 <= i < b.len() && b[i] == x;
        assert((a + b)[a.len() + i] == x);
    }
    if (a + b).contains(x) {
        let i = choose|i: int| 0 <= i < (a + b).len() && (a + b)[i] == x;
        if i < a.len() {
            assert(a[i] == x);
        } else {
            assert(b[i - a.len()] == x);
        }
    }
}

fn remove_node(node: &SplitNode, pane: PaneId) -> (r: (SplitNode, bool))
    ensures
        r.0 == remove_result(*node, pane),
        r.1 == removable(*node, pane),
    decreases *node,
{
    match node {
        SplitNode::Leaf(id) => (SplitNode::Leaf(*id), false),
        SplitNode::Split { direction, ratio, first, second } => {
            proof {
                lemma_leaves_concat_contains(leaves(**first), leaves(**second), pane);
                assert(leaves(SplitNode::Leaf(pane))[0] == pane);
                if **first is Leaf {
                    assert(leaves(**first).contains(pane) ==> leaves(**first)[0] == pane);
                }
                if **second is Leaf {
                    assert(leaves(**second).contains(pane) ==> leaves(**second)[0] == pane);
                }
            }
            if is_leaf_of(first, pane) {
                (clone_node(second), true)
            } else if is_leaf_of(second, pane) {
                (clone_node(first), true)
            } else {
                let (nf, done) = remove_node(first, pane);
                if done {
                    (
                        SplitNode::Split {
                            direction: *direction,
                            ratio: *ratio,
                            first: Box::new(nf),
                            second: Box::new(clone_node(second)),
                        },
                        true,
                    )
                } else {
                    let (ns, done2) = remove_node(second, pane);
                    if done2 {
                        (
                            SplitNode::Split {
                                direction: *direction,
                                ratio: *ratio,
                                first: Box::new(clone_node(first)),
                                second: Box::new(ns),
                            },
                            true,
                        )
                    } else {
                        (clone_node(node), false)
                    }
                }
            }
        },
    }
}

fn clamp_ratio(ratio: u64, delta: i64) -> (r: u64)
    ensures
        r == clamped_ratio(ratio, delta),
        RATIO_MIN <= r <= RATIO_MAX,
{
    let sum: i128 = ratio as i128 + delta as i128;
    if sum < 100 {
        RATIO_MIN
    } else if sum > 900 {
        RATIO_MAX
    } else {
        sum as u64
    }
}

fn adjust_ratio_node(node: &SplitNode, pane: PaneId, delta: i64) -> (r: (SplitNode, bool))
    ensures
        r.0 == adjust_result(*node, pane, delta),
        r.1 == removable(*node, pane),
    decreases *node,
{
    match node {
        SplitNode::Leaf(id) => (SplitNode::Leaf(*id), false),
        SplitNode::Split { direction, ratio, first, second } => {
            proof {
                lemma_leaves_concat_contains(leaves(**first), leaves(**second), pane);
            }
            let first_match = node_contains(first, pane);
            let second_match = node_contains(second, pane);
            if first_match {
                let (nf, deeper) = adjust_ratio_node(first, pane, delta);
                let new_ratio = if deeper {
                    *ratio
                } else {
                    clamp_ratio(*ratio, delta)
                };
                (
                    SplitNode::Split {
                        direction: *direction,
                        ratio: new_ratio,
                        first: Box::new(nf),
                        second: Box::new(clone_node(second)),
                    },
                    true,
                )
            } else if second_match {
                let (ns, deeper) = adjust_ratio_node(second, pane, delta);
                let new_ratio = if deeper {
                    *ratio
                } else {
                    clamp_ratio(*ratio, delta)
                };
                (
                    SplitNode::Split {
                        direction: *direction,
                        ratio: new_ratio,
                        first: Box::new(clone_node(first)),
                        second: Box::new(ns),
                    },
                    true,
                )
            } else {
                (clone_node(node), false)
            }
        },
    }
}

fn layout_node(node: &SplitNode, rect: PaneRect, out: &mut Vec<(PaneId, PaneRect)>)
    requires
        node_wf(*node),
        rect_in_bounds(rect),
    ensures
        final(out)@ == old(out)@ + layout_of(*node, rect),
    decreases *node,
{
    match node {
        SplitNode::Leaf(id) => {
            out.push((*id, rect));
            assert(out@ =~= old(out)@ + layout_of(*node, rect));
        },
        SplitNode::Split { direction, ratio, first, second } => {
            proof {
                lemma_parts(rect, *direction, *ratio);
            }
            let (r1, r2) = match direction {
                SplitDirection::Horizontal => {
                    assert(rect.width * *ratio <= 1_000_000_000 * 900) by (nonlinear_arith)
                        requires
                            rect.width <= 1_000_000_000,
                            *ratio <= 900,
                    ;
                    let first_w: u64 = rect.width * *ratio / RATIO_ONE;
                    (
                        PaneRect { x: rect.x, y: rect.y, width: first_w, height: rect.height },
                        PaneRect {
                            x: rect.x + first_w,
                            y: rect.y,
                            width: rect.width - first_w,
                            height: rect.height,
                        },
                    )
                },
                SplitDirection::Vertical => {
                    assert(rect.height * *ratio <= 1_000_000_000 * 900) by (nonlinear_arith)
                        requires
                            rect.height <= 1_000_000_000,
                            *ratio <= 900,
                    ;
                    let first_h: u64 = rect.height * *ratio / RATIO_ONE;
                    (
                        PaneRect { x: rect.x, y: rect.y, width: rect.width, height: first_h },
                        PaneRect {
                            x: rect.x,
                            y: rect.y + first_h,
                            width: rect.width,
                            height: rect.height - first_h,
                        },
                    )
                },
            };
            assert(r1 == first_part(rect, *direction, *ratio));
            assert(r2 == second_part(rect, *direction, *ratio));
            layout_node(first, r1, out);
            layout_node(second, r2, out);
            assert(out@ =~= old(out)@ + layout_of(*node, rect));
        },
    }
}

fn collect_ids(node: &SplitNode, out: &mut Vec<PaneId>)
    ensures
        final(out)@ == old(out)@ + leaves(*node),
    decreases *node,
{
    match node {
        SplitNode::Leaf(id) => {
            out.push(*id);
            assert(out@ =~= old(out)@ + leaves(*node));
        },
        SplitNode::Split { direction, ratio, first, second } => {
            collect_ids(first, out);
            collect_ids(second, out);
            assert(out@ =~= old(out)@ + leaves(*node));
        },
    }
}

/// The index of the first `x` in `ids`, or their number where there is none.
fn position_of(ids: &Vec<PaneId>, x: PaneId) -> (i: usize)
    ensures
        i as int == first_index(ids@, x),
        i <= ids@.len(),
        ids@.contains(x) <==> i < ids@.len(),
        i < ids@.len() ==> ids@[i as int] == x,
{
    let mut i: usize = 0;
    while i < ids.len() && ids[i] != x
        invariant
            i <= ids@.len(),
            forall|j: int| 0 <= j < i ==> ids@[j] != x,
        decreases ids@.len() - i,
    {
        i += 1;
    }
    proof {
        lemma_first_index(ids@, x, i as int);
    }
    i
}

impl SplitTree {
    /// Every ratio lies between one tenth and nine tenths.
    pub open spec fn wf(&self) -> bool {
        node_wf(self.root)
    }

    /// The panes of the tree in order.
    pub open spec fn panes(&self) -> Seq<PaneId> {
        leaves(self.root)
    }

    /// A tree of one pane.
    pub fn new(pane_id: PaneId) -> (t: Self)
        ensures
            t.root == SplitNode::Leaf(pane_id),
            t.wf(),
            t.panes() == seq![pane_id],
    {
        SplitTree { root: SplitNode::Leaf(pane_id) }
    }

    /// Splits the first pane `target` in two halves, `target` first and
    /// `new_pane` second. Does nothing where `target` is no pane of the tree.
    pub fn split(&mut self, target: PaneId, direction: SplitDirection, new_pane: PaneId)
        ensures
            final(self).root == split_result(old(self).root, target, direction, new_pane),
            old(self).wf() ==> final(self).wf(),
            final(self).panes() == if old(self).panes().contains(target) {
                old(self).panes().insert(first_index(old(self).panes(), target) + 1, new_pane)
            } else {
                old(self).panes()
            },
    {
        proof {
            lemma_split(self.root, target, direction, new_pane);
        }
        let (root, _) = split_node(&self.root, target, direction, new_pane);
        self.root = root;
    }

    /// Removes a pane; the other child of its split takes the split's place.
    /// Fails, leaving the tree as it is, on the only pane of a tree and on a
    /// pane that the tree does not hold.
    pub fn remove(&mut self, pane_id: PaneId) -> (removed: bool)
        ensures
            removed == (old(self).root is Split && old(self).panes().contains(pane_id)),
            !removed ==> final(self).root == old(self).root,
            final(self).root == remove_result(old(self).root, pane_id),
            old(self).wf() ==> final(self).wf(),
            removed ==> 0 <= removed_index(old(self).root, pane_id) < old(self).panes().len()
                && old(self).panes()[removed_index(old(self).root, pane_id)] == pane_id
                && final(self).panes() == old(self).panes().remove(
                removed_index(old(self).root, pane_id),
            ),
            removed && old(self).panes().no_duplicates() ==> final(self).panes().no_duplicates()
                && !final(self).panes().contains(pane_id),
    {
        proof {
            lemma_remove(self.root, pane_id);
            if removable(self.root, pane_id) && self.panes().no_duplicates() {
                lemma_remove_distinct(self.panes(), removed_index(self.root, pane_id));
            }
        }
        if let SplitNode::Leaf(_) = &self.root {
            return false;
        }
        let (root, removed) = remove_node(&self.root, pane_id);
        if removed {
            self.root = root;
        }
        removed
    }

    /// The panes with their rectangles. The rectangles tile the layout
    /// square. Each has positive width and height exactly where the tree has
    /// room in the square, which every tree of depth nine or less has.
    pub fn layout(&self) -> (r: Vec<(PaneId, PaneRect)>)
        requires
            self.wf(),
        ensures
            r@ == layout_of(self.root, unit_square()),
            layout_ids(r@) == self.panes(),
            tiles(r@, unit_square()),
            all_positive(r@) <==> roomy(self.root, unit_square()),
            depth(self.root) <= 9 ==> roomy(self.root, unit_square()),
            depth(self.root) <= 9 ==> forall|i: int|
                0 <= i < r@.len() ==> (#[trigger] r@[i]).1.width > 0 && r@[i].1.height > 0,
    {
        let mut result: Vec<(PaneId, PaneRect)> = Vec::new();
        let whole = PaneRect { x: 0, y: 0, width: UNIT, height: UNIT };
        layout_node(&self.root, whole, &mut result);
        proof {
            assert(result@ =~= layout_of(self.root, whole));
            lemma_layout_tiles(self.root, whole);
            lemma_roomy(self.root, whole);
            if depth(self.root) <= 9 {
                lemma_pow10_monotonic(depth(self.root), 9);
                assert(pow10(9) == 1_000_000_000) by {
                    reveal_with_fuel(pow10, 10);
                }
                lemma_layout_positive(self.root, whole);
            }
        }
        result
    }

    /// The panes in order.
    pub fn pane_ids(&self) -> (ids: Vec<PaneId>)
        ensures
            ids@ == self.panes(),
    {
        let mut ids: Vec<PaneId> = Vec::new();
        collect_ids(&self.root, &mut ids);
        assert(ids@ =~= leaves(self.root));
        ids
    }

    pub fn contains(&self, pane_id: PaneId) -> (b: bool)
        ensures
            b == self.panes().contains(pane_id),
    {
        node_contains(&self.root, pane_id)
    }

    /// The pane after `current`, the first after the last.
    pub fn next_pane(&self, current: PaneId) -> (r: Option<PaneId>)
        ensures
            r == next_in(self.panes(), current),
    {
        let ids = self.pane_ids();
        let pos = position_of(&ids, current);
        if pos >= ids.len() {
            return None;
        }
        let n = ids.len();
        let next = if pos + 1 == n {
            0
        } else {
            pos + 1
        };
        assert(next as int == (pos + 1) % (n as int)) by (nonlinear_arith)
            requires
                0 <= pos < n,
                next == if pos + 1 == n { 0 } else { pos + 1 },
        ;
        Some(ids[next])
    }

    /// The pane before `current`, the last before the first.
    pub fn prev_pane(&self, current: PaneId) -> (r: Option<PaneId>)
        ensures
            r == prev_in(self.panes(), current),
    {
        let ids = self.pane_ids();
        let pos = position_of(&ids, current);
        if pos >= ids.len() {
            return None;
        }
        let n = ids.len();
        let prev = if pos == 0 {
            n - 1
        } else {
            pos - 1
        };
        assert(prev as int == (pos + n - 1) % (n as int)) by (nonlinear_arith)
            requires
                0 <= pos < n,
                prev == if pos == 0 { n - 1 } else { pos - 1 },
        ;
        Some(ids[prev])
    }

    /// Moves the ratio of the split closest to `pane_id` by `delta`
    /// thousandths, and keeps it between one tenth and nine tenths. Panes and
    /// shape of the tree stay.
    pub fn adjust_ratio(&mut self, pane_id: PaneId, delta: i64)
        ensures
            final(self).root == adjust_result(old(self).root, pane_id, delta),
            old(self).wf() ==> final(self).wf(),
            final(self).panes() == old(self).panes(),
            depth(final(self).root) == depth(old(self).root),
    {
        proof {
            lemma_adjust(self.root, pane_id, delta);
        }
        let (root, _) = adjust_ratio_node(&self.root, pane_id, delta);
        self.root = root;
    }
}

/// Splitting keeps the ratios in range and puts the new pane right after the
/// first occurrence of the target.
pub proof fn lemma_split(
    node: SplitNode,
    target: PaneId,
    direction: SplitDirection,
    new_pane: PaneId,
)
    ensures
        node_wf(node) ==> node_wf(split_result(node, target, direction, new_pane)),
        leaves(split_result(node, target, direction, new_pane)) == if leaves(node).contains(
            target,
        ) {
            leaves(node).insert(first_index(leaves(node), target) + 1, new_pane)
        } else {
            leaves(node)
        },
    decreases node,
{
    let res = split_result(node, target, direction, new_pane);
    lemma_first_index_bounds(leaves(node), target);
    match node {
        SplitNode::Leaf(id) => {
            assert(leaves(node)[0] == id);
            if id == target {
                assert(leaves(SplitNode::Leaf(id)) =~= seq![id]);
                assert(leaves(SplitNode::Leaf(new_pane)) =~= seq![new_pane]);
                assert(node_wf(SplitNode::Leaf(id)));
                assert(node_wf(SplitNode::Leaf(new_pane)));
                assert(leaves(res) =~= seq![id, new_pane]);
                assert(first_index(leaves(node), target) == 0);
                assert(seq![id, new_pane] =~= leaves(node).insert(1, new_pane));
            }
        },
        SplitNode::Split { direction: d, ratio, first, second } => {
            let l1 = leaves(*first);
            let l2 = leaves(*second);
            lemma_leaves_concat_contains(l1, l2, target);
            lemma_split(*first, target, direction, new_pane);
            lemma_split(*second, target, direction, new_pane);
            lemma_first_index_bounds(l1, target);
            lemma_first_index_bounds(l2, target);
            if l1.contains(target) {
                let i = first_index(l1, target);
                lemma_first_index_concat(l1, l2, target);
                assert(leaves(res) == l1.insert(i + 1, new_pane) + l2);
                assert(leaves(res) =~= (l1 + l2).insert(i + 1, new_pane));
            } else if l2.contains(target) {
                let i = first_index(l2, target);
                lemma_first_index_concat(l1, l2, target);
                assert(leaves(res) == l1 + l2.insert(i + 1, new_pane));
                assert(leaves(res) =~= (l1 + l2).insert(l1.len() + i + 1, new_pane));
            }
        },
    }
}

pub proof fn lemma_first_index_bounds(s: Seq<PaneId>, x: PaneId)
    ensures
        0 <= first_index(s, x) <= s.len(),
        s.contains(x) <==> first_index(s, x) < s.len(),
        s.contains(x) ==> s[first_index(s, x)] == x,
    decreases s.len(),
{
    if s.len() > 0 {
        if s[0] == x {
        } else {
            let t = s.drop_first();
            lemma_first_index_bounds(t, x);
            if t.contains(x) {
                assert(s[first_index(t, x) + 1] == x);
            }
            if s.contains(x) {
                let i = choose|i: int| 0 <= i < s.len() && s[i] == x;
                assert(t[i - 1] == x);
            }
        }
    }
}

pub proof fn lemma_first_index_concat(a: Seq<PaneId>, b: Seq<PaneId>, x: PaneId)
    ensures
        first_index(a + b, x) == if a.contains(x) {
            first_index(a, x)
        } else {
            a.len() + first_index(b, x)
        },
    decreases a.len(),
{
    if a.len() == 0 {
        assert(a + b =~= b);
    } else {
        let t = a.drop_first();
        assert((a + b).drop_first() =~= t + b);
        lemma_first_index_concat(t, b, x);
        if a[0] == x {
        } else {
            if a.contains(x) {
                let i = choose|i: int| 0 <= i < a.len() && a[i] == x;
                assert(t[i - 1] == x);
            }
            if t.contains(x) {
                let i = choose|i: int| 0 <= i < t.len() && t[i] == x;
                assert(a[i + 1] == x);
            }
        }
    }
}

/// Taking one element out of a sequence of distinct elements leaves distinct
/// elements, and none equal to the one taken.
pub proof fn lemma_remove_distinct(l: Seq<PaneId>, i: int)
    requires
        0 <= i < l.len(),
        l.no_duplicates(),
    ensures
        l.remove(i).no_duplicates(),
        !l.remove(i).contains(l[i]),
{
    let r = l.remove(i);
    assert forall|a: int, b: int| 0 <= a < r.len() && 0 <= b < r.len() && a != b implies r[a]
        != r[b] by {
        let a2 = if a < i { a } else { a + 1 };
        let b2 = if b < i { b } else { b + 1 };
        assert(r[a] == l[a2] && r[b] == l[b2]);
    }
    assert forall|a: int| 0 <= a < r.len() implies r[a] != l[i] by {
        let a2 = if a < i { a } else { a + 1 };
        assert(r[a] == l[a2]);
    }
}

/// The place in the sequence of panes that a removal takes out.
pub open spec fn removed_index(node: SplitNode, pane: PaneId) -> int
    decreases node,
{
    match node {
        SplitNode::Leaf(_) => 0,
        SplitNode::Split { direction, ratio, first, second } => if *first == SplitNode::Leaf(
            pane,
        ) {
            0
        } else if *second == SplitNode::Leaf(pane) {
            leaves(*first).len() as int
        } else if removable(*first, pane) {
            removed_index(*first, pane)
        } else {
            leaves(*first).len() + removed_index(*second, pane)
        },
    }
}

/// Removing keeps the ratios in range and takes exactly one occurrence of the
/// pane out of the sequence of panes; what cannot be removed changes nothing.
pub proof fn lemma_remove(node: SplitNode, pane: PaneId)
    ensures
        node_wf(node) ==> node_wf(remove_result(node, pane)),
        !removable(node, pane) ==> remove_result(node, pane) == node,
        removable(node, pane) ==> 0 <= removed_index(node, pane) < leaves(node).len()
            && leaves(node)[removed_index(node, pane)] == pane && leaves(
            remove_result(node, pane),
        ) == leaves(node).remove(removed_index(node, pane)),
    decreases node,
{
    match node {
        SplitNode::Leaf(id) => {},
        SplitNode::Split { direction, ratio, first, second } => {
            let l1 = leaves(*first);
            let l2 = leaves(*second);
            let l = l1 + l2;
            let res = remove_result(node, pane);
            lemma_leaves_concat_contains(l1, l2, pane);
            assert(leaves(SplitNode::Leaf(pane)) =~= seq![pane]);
            if *first == SplitNode::Leaf(pane) {
                assert(l[0] == pane);
                assert(l2 =~= l.remove(0));
            } else if *second == SplitNode::Leaf(pane) {
                assert(l[l1.len() as int] == pane);
                assert(l1 =~= l.remove(l1.len() as int));
            } else if removable(*first, pane) {
                lemma_remove(*first, pane);
                let i = removed_index(*first, pane);
                assert(l[i] == pane);
                assert(leaves(res) == l1.remove(i) + l2);
                assert(leaves(res) =~= l.remove(i));
            } else if removable(*second, pane) {
                lemma_remove(*second, pane);
                let i = removed_index(*second, pane);
                assert(l[l1.len() + i] == pane);
                assert(leaves(res) == l1 + l2.remove(i));
                assert(leaves(res) =~= l.remove(l1.len() + i));
            } else {
                if *first is Leaf {
                    assert(l1.contains(pane) ==> l1[0] == pane);
                }
                if *second is Leaf {
                    assert(l2.contains(pane) ==> l2[0] == pane);
                }
            }
        },
    }
}

/// A ratio that was moved lies between one tenth and nine tenths, whatever
/// it was and however far it was moved.
pub proof fn lemma_clamped_ratio(ratio: u64, delta: i64)
    ensures
        RATIO_MIN <= clamped_ratio(ratio, delta) <= RATIO_MAX,
        RATIO_MIN <= ratio + delta <= RATIO_MAX ==> clamped_ratio(ratio, delta) == ratio + delta,
{
}

/// Adjusting a ratio keeps all ratios in range and changes neither the panes
/// nor the depth of the tree.
pub proof fn lemma_adjust(node: SplitNode, pane: PaneId, delta: i64)
    ensures
        node_wf(node) ==> node_wf(adjust_result(node, pane, delta)),
        leaves(adjust_result(node, pane, delta)) == leaves(node),
        depth(adjust_result(node, pane, delta)) == depth(node),
    decreases node,
{
    match node {
        SplitNode::Leaf(id) => {},
        SplitNode::Split { direction, ratio, first, second } => {
            lemma_adjust(*first, pane, delta);
            lemma_adjust(*second, pane, delta);
        },
    }
}

/// A split with a pane that the tree does not hold yet keeps the panes
/// distinct.
pub proof fn lemma_split_keeps_distinct(
    node: SplitNode,
    target: PaneId,
    direction: SplitDirection,
    new_pane: PaneId,
)
    requires
        leaves(node).no_duplicates(),
        !leaves(node).contains(new_pane),
    ensures
        leaves(split_result(node, target, direction, new_pane)).no_duplicates(),
{
    lemma_split(node, target, direction, new_pane);
    let l = leaves(node);
    if l.contains(target) {
        lemma_first_index_bounds(l, target);
        let k = first_index(l, target) + 1;
        let r = l.insert(k, new_pane);
        assert forall|a: int, b: int| 0 <= a < r.len() && 0 <= b < r.len() && a != b implies r[a]
            != r[b] by {
            if a != k {
                let a2 = if a < k { a } else { a - 1 };
                assert(r[a] == l[a2]);
            }
            if b != k {
                let b2 = if b < k { b } else { b - 1 };
                assert(r[b] == l[b2]);
            }
        }
    }
}

} // verus!
