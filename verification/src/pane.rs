//! The pane layout: a binary tree of horizontal and vertical splits whose
//! leaves are pane identifiers.
//!
//! Geometry is integral: a rectangle is measured in pixels, and a split
//! ratio is stored in thousandths, clamped to `[100, 900]`.  The unit
//! viewport is the square of side [`RECT_SCALE`].  Splitting hands the
//! left (or top) child `width * ratio / 1000` pixels and the right (or
//! bottom) child the rest, so the children always tile the parent exactly.

use vstd::prelude::*;

verus! {

/// The side of the unit viewport square.
pub const RECT_SCALE: u32 = 65536;

/// The smallest split ratio, in thousandths.
pub const MIN_RATIO: u32 = 100;

/// The largest split ratio, in thousandths.
pub const MAX_RATIO: u32 = 900;

/// A stable pane identifier.
#[derive(Debug, Clone, Copy, PartialEq, Eq, Hash, Structural)]
pub struct PaneId(pub u64);

impl PaneId {
    /// Wraps a raw identifier value.
    pub fn new(value: u64) -> (p: PaneId)
        ensures
            p == PaneId(value),
    {
        PaneId(value)
    }
}

/// Hands out process-unique pane identifiers from a monotonic counter.
pub struct PaneIdAllocator {
    pub next: u64,
}

impl PaneIdAllocator {
    /// A fresh allocator; the first identifier handed out is 1.
    pub fn new() -> (a: PaneIdAllocator)
        ensures
            a.next == 1,
    {
        PaneIdAllocator { next: 1 }
    }

    /// Allocates the next identifier; identifiers are handed out in
    /// strictly increasing order and never reused.
    pub fn fresh(&mut self) -> (p: PaneId)
        requires
            old(self).next < u64::MAX,
        ensures
            p == PaneId(old(self).next),
            final(self).next == old(self).next + 1,
    {
        let v = self.next;
        self.next = self.next + 1;
        PaneId(v)
    }
}

/// A pixel-aligned rectangle.
#[derive(Debug, Clone, Copy, PartialEq, Eq, Structural)]
pub struct Rect {
    pub x: u32,
    pub y: u32,
    pub width: u32,
    pub height: u32,
}

impl Rect {
    /// Fits in the coordinate space: the far edges do not overflow.
    pub open spec fn wf(self) -> bool {
        &&& self.x + self.width <= u32::MAX
        &&& self.y + self.height <= u32::MAX
    }

    /// True when the point lies inside the rectangle.
    pub open spec fn spec_contains(self, px: int, py: int) -> bool {
        &&& self.x <= px < self.x + self.width
        &&& self.y <= py < self.y + self.height
    }

    /// The whole unit viewport.
    pub fn full() -> (r: Rect)
        ensures
            r == (Rect { x: 0, y: 0, width: RECT_SCALE, height: RECT_SCALE }),
    {
        Rect { x: 0, y: 0, width: RECT_SCALE, height: RECT_SCALE }
    }

    /// The left half.
    pub fn left_half(&self) -> (r: Rect)
        ensures
            r == (Rect { width: (self.width / 2) as u32, ..*self }),
    {
        Rect { x: self.x, y: self.y, width: self.width / 2, height: self.height }
    }

    /// The right half (everything the left half leaves).
    pub fn right_half(&self) -> (r: Rect)
        requires
            self.wf(),
        ensures
            r == (Rect {
                x: (self.x + self.width / 2) as u32,
                width: (self.width - self.width / 2) as u32,
                ..*self
            }),
    {
        Rect {
            x: self.x + self.width / 2,
            y: self.y,
            width: self.width - self.width / 2,
            height: self.height,
        }
    }

    /// The top half.
    pub fn top_half(&self) -> (r: Rect)
        ensures
            r == (Rect { height: (self.height / 2) as u32, ..*self }),
    {
        Rect { x: self.x, y: self.y, width: self.width, height: self.height / 2 }
    }

    /// The bottom half (everything the top half leaves).
    pub fn bottom_half(&self) -> (r: Rect)
        requires
            self.wf(),
        ensures
            r == (Rect {
                y: (self.y + self.height / 2) as u32,
                height: (self.height - self.height / 2) as u32,
                ..*self
            }),
    {
        Rect {
            x: self.x,
            y: self.y + self.height / 2,
            width: self.width,
            height: self.height - self.height / 2,
        }
    }
}

/// The layout tree: a leaf pane, or a split with the left/top share given
/// by `ratio` thousandths.
#[derive(Debug)]
pub enum PaneLayout {
    Single(PaneId),
    HSplit { left: Box<PaneLayout>, right: Box<PaneLayout>, ratio: u32 },
    VSplit { top: Box<PaneLayout>, bottom: Box<PaneLayout>, ratio: u32 },
}

/// Every split ratio lies in `[MIN_RATIO, MAX_RATIO]`.
pub open spec fn layout_wf(l: PaneLayout) -> bool
    decreases l,
{
    match l {
        PaneLayout::Single(_) => true,
        PaneLayout::HSplit { left, right, ratio } => {
            &&& MIN_RATIO <= ratio <= MAX_RATIO
            &&& layout_wf(*left)
            &&& layout_wf(*right)
        },
        PaneLayout::VSplit { top, bottom, ratio } => {
            &&& MIN_RATIO <= ratio <= MAX_RATIO
            &&& layout_wf(*top)
            &&& layout_wf(*bottom)
        },
    }
}

/// The pane identifiers at the leaves, in order.
pub open spec fn spec_pane_ids(l: PaneLayout) -> Seq<PaneId>
    decreases l,
{
    match l {
        PaneLayout::Single(id) => seq![id],
        PaneLayout::HSplit { left, right, .. } => spec_pane_ids(*left) + spec_pane_ids(*right),
        PaneLayout::VSplit { top, bottom, .. } => spec_pane_ids(*top) + spec_pane_ids(*bottom),
    }
}

/// The layout after splitting the leaf `target` in two side by side, and
/// whether the leaf was found.
pub open spec fn spec_split_h(l: PaneLayout, target: PaneId, new: PaneId) -> (PaneLayout, bool)
    decreases l,
{
    match l {
        PaneLayout::Single(id) => {
            if id == target {
                (
                    PaneLayout::HSplit {
                        left: Box::new(PaneLayout::Single(target)),
                        right: Box::new(PaneLayout::Single(new)),
                        ratio: 500,
                    },
                    true,
                )
            } else {
                (PaneLayout::Single(id), false)
            }
        },
        PaneLayout::HSplit { left, right, ratio } => {
            let (l2, ok) = spec_split_h(*left, target, new);
            if ok {
                (PaneLayout::HSplit { left: Box::new(l2), right, ratio }, true)
            } else {
                let (r2, ok2) = spec_split_h(*right, target, new);
                (PaneLayout::HSplit { left: Box::new(l2), right: Box::new(r2), ratio }, ok2)
            }
        },
        PaneLayout::VSplit { top, bottom, ratio } => {
            let (t2, ok) = spec_split_h(*top, target, new);
            if ok {
                (PaneLayout::VSplit { top: Box::new(t2), bottom, ratio }, true)
            } else {
                let (b2, ok2) = spec_split_h(*bottom, target, new);
                (PaneLayout::VSplit { top: Box::new(t2), bottom: Box::new(b2), ratio }, ok2)
            }
        },
    }
}

/// The layout after splitting the leaf `target` in two stacked, and
/// whether the leaf was found.
pub open spec fn spec_split_v(l: PaneLayout, target: PaneId, new: PaneId) -> (PaneLayout, bool)
    decreases l,
{
    match l {
        PaneLayout::Single(id) => {
            if id == target {
                (
                    PaneLayout::VSplit {
                        top: Box::new(PaneLayout::Single(target)),
                        bottom: Box::new(PaneLayout::Single(new)),
                        ratio: 500,
                    },
                    true,
                )
            } else {
                (PaneLayout::Single(id), false)
            }
        },
        PaneLayout::HSplit { left, right, ratio } => {
            let (l2, ok) = spec_split_v(*left, target, new);
            if ok {
                (PaneLayout::HSplit { left: Box::new(l2), right, ratio }, true)
            } else {
                let (r2, ok2) = spec_split_v(*right, target, new);
                (PaneLayout::HSplit { left: Box::new(l2), right: Box::new(r2), ratio }, ok2)
            }
        },
        PaneLayout::VSplit { top, bottom, ratio } => {
            let (t2, ok) = spec_split_v(*top, target, new);
            if ok {
                (PaneLayout::VSplit { top: Box::new(t2), bottom, ratio }, true)
            } else {
                let (b2, ok2) = spec_split_v(*bottom, target, new);
                (PaneLayout::VSplit { top: Box::new(t2), bottom: Box::new(b2), ratio }, ok2)
            }
        },
    }
}

/// The whole layout after removing the leaf `target`: a split with a
/// `target` leaf collapses to its sibling; `None` when the leaf is absent
/// or the whole layout is one leaf.
pub open spec fn spec_remove_pane(l: PaneLayout, target: PaneId) -> Option<PaneLayout>
    decreases l,
{
    match l {
        PaneLayout::Single(_) => None,
        PaneLayout::HSplit { left, right, ratio } => {
            if *left matches PaneLayout::Single(id) && id == target {
                Some(*right)
            } else if *right matches PaneLayout::Single(id) && id == target {
                Some(*left)
            } else {
                match spec_remove_pane(*left, target) {
                    Some(nl) => Some(
                        PaneLayout::HSplit { left: Box::new(nl), right, ratio },
                    ),
                    None => match spec_remove_pane(*right, target) {
                        Some(nr) => Some(
                            PaneLayout::HSplit { left, right: Box::new(nr), ratio },
                        ),
                        None => None,
                    },
                }
            }
        },
        PaneLayout::VSplit { top, bottom, ratio } => {
            if *top matches PaneLayout::Single(id) && id == target {
                Some(*bottom)
            } else if *bottom matches PaneLayout::Single(id) && id == target {
                Some(*top)
            } else {
                match spec_remove_pane(*top, target) {
                    Some(nt) => Some(
                        PaneLayout::VSplit { top: Box::new(nt), bottom, ratio },
                    ),
                    None => match spec_remove_pane(*bottom, target) {
                        Some(nb) => Some(
                            PaneLayout::VSplit { top, bottom: Box::new(nb), ratio },
                        ),
                        None => None,
                    },
                }
            }
        },
    }
}

/// The left (or top) share of a span under a ratio in thousandths.
pub open spec fn spec_share(span: u32, ratio: u32) -> u32 {
    ((span as int) * (ratio as int) / 1000) as u32
}

/// The rectangles of a split's children.
pub open spec fn spec_h_children(bounds: Rect, ratio: u32) -> (Rect, Rect) {
    let lw = spec_share(bounds.width, ratio);
    (
        Rect { width: lw, ..bounds },
        Rect {
            x: (bounds.x + lw) as u32,
            width: (bounds.width - lw) as u32,
            ..bounds
        },
    )
}

/// The rectangles of a vertical split's children.
pub open spec fn spec_v_children(bounds: Rect, ratio: u32) -> (Rect, Rect) {
    let th = spec_share(bounds.height, ratio);
    (
        Rect { height: th, ..bounds },
        Rect {
            y: (bounds.y + th) as u32,
            height: (bounds.height - th) as u32,
            ..bounds
        },
    )
}

/// The left share never exceeds the span.
pub proof fn lemma_share_bounds(span: u32, ratio: u32)
    requires
        ratio <= 1000,
    ensures
        0 <= (span as int) * (ratio as int) / 1000 <= span,
        spec_share(span, ratio) == (span as int) * (ratio as int) / 1000,
{
    assert(0 <= (span as int) * (ratio as int) / 1000 <= span) by (nonlinear_arith)
        requires
            ratio <= 1000,
    ;
}

/// The `(pane, rectangle)` pairs of a layout within some bounds.
pub open spec fn spec_rects(l: PaneLayout, bounds: Rect) -> Seq<(PaneId, Rect)>
    decreases l,
{
    match l {
        PaneLayout::Single(id) => seq![(id, bounds)],
        PaneLayout::HSplit { left, right, ratio } => {
            let (lb, rb) = spec_h_children(bounds, ratio);
            spec_rects(*left, lb) + spec_rects(*right, rb)
        },
        PaneLayout::VSplit { top, bottom, ratio } => {
            let (tb, bb) = spec_v_children(bounds, ratio);
            spec_rects(*top, tb) + spec_rects(*bottom, bb)
        },
    }
}

/// The pane the point falls in.
pub open spec fn spec_pane_at(l: PaneLayout, x: u32, y: u32, bounds: Rect) -> Option<PaneId>
    decreases l,
{
    match l {
        PaneLayout::Single(id) => {
            if bounds.spec_contains(x as int, y as int) {
                Some(id)
            } else {
                None
            }
        },
        PaneLayout::HSplit { left, right, ratio } => {
            let (lb, rb) = spec_h_children(bounds, ratio);
            if (x as int) < bounds.x + spec_share(bounds.width, ratio) {
                spec_pane_at(*left, x, y, lb)
            } else {
                spec_pane_at(*right, x, y, rb)
            }
        },
        PaneLayout::VSplit { top, bottom, ratio } => {
            let (tb, bb) = spec_v_children(bounds, ratio);
            if (y as int) < bounds.y + spec_share(bounds.height, ratio) {
                spec_pane_at(*top, x, y, tb)
            } else {
                spec_pane_at(*bottom, x, y, bb)
            }
        },
    }
}

/// The layout after setting the ratio of the split the path leads to,
/// clamped to `[MIN_RATIO, MAX_RATIO]`; a path that leads nowhere changes
/// nothing.
pub open spec fn spec_update_ratio(
    l: PaneLayout,
    path: Seq<BorderDirection>,
    new_ratio: u32,
) -> PaneLayout
    decreases path.len(), l,
{
    let clamped: u32 = if new_ratio < MIN_RATIO {
        MIN_RATIO
    } else if new_ratio > MAX_RATIO {
        MAX_RATIO
    } else {
        new_ratio
    };
    if path.len() == 0 {
        match l {
            PaneLayout::Single(id) => PaneLayout::Single(id),
            PaneLayout::HSplit { left, right, ratio } => PaneLayout::HSplit {
                left,
                right,
                ratio: clamped,
            },
            PaneLayout::VSplit { top, bottom, ratio } => PaneLayout::VSplit {
                top,
                bottom,
                ratio: clamped,
            },
        }
    } else {
        match l {
            PaneLayout::Single(id) => PaneLayout::Single(id),
            PaneLayout::HSplit { left, right, ratio } => {
                if path[0] == BorderDirection::Left {
                    PaneLayout::HSplit {
                        left: Box::new(spec_update_ratio(*left, path.drop_first(), new_ratio)),
                        right,
                        ratio,
                    }
                } else if path[0] == BorderDirection::Right {
                    PaneLayout::HSplit {
                        left,
                        right: Box::new(spec_update_ratio(*right, path.drop_first(), new_ratio)),
                        ratio,
                    }
                } else {
                    PaneLayout::HSplit { left, right, ratio }
                }
            },
            PaneLayout::VSplit { top, bottom, ratio } => {
                if path[0] == BorderDirection::Top {
                    PaneLayout::VSplit {
                        top: Box::new(spec_update_ratio(*top, path.drop_first(), new_ratio)),
                        bottom,
                        ratio,
                    }
                } else if path[0] == BorderDirection::Bottom {
                    PaneLayout::VSplit {
                        top,
                        bottom: Box::new(spec_update_ratio(*bottom, path.drop_first(), new_ratio)),
                        ratio,
                    }
                } else {
                    PaneLayout::VSplit { top, bottom, ratio }
                }
            },
        }
    }
}

/// Which side of a split a border path step descends into.
#[derive(Debug, Clone, Copy, PartialEq, Eq, Structural)]
pub enum BorderDirection {
    Left,
    Right,
    Top,
    Bottom,
}

/// A hit on a split border: its line segment and the path of the split
/// from the root.
#[derive(Debug, Clone)]
pub enum BorderHit {
    Vertical { x: u32, y_start: u32, y_end: u32, layout_path: Vec<BorderDirection> },
    Horizontal { y: u32, x_start: u32, x_end: u32, layout_path: Vec<BorderDirection> },
}

impl BorderHit {
    /// Prepends one step to the path.
    pub fn push_path(&mut self, dir: BorderDirection)
        ensures
            match (*old(self), *final(self)) {
                (
                    BorderHit::Vertical { x, y_start, y_end, layout_path },
                    BorderHit::Vertical { x: x2, y_start: ys2, y_end: ye2, layout_path: p2 },
                ) => x2 == x && ys2 == y_start && ye2 == y_end && p2@ == seq![dir] + layout_path@,
                (
                    BorderHit::Horizontal { y, x_start, x_end, layout_path },
                    BorderHit::Horizontal { y: y2, x_start: xs2, x_end: xe2, layout_path: p2 },
                ) => y2 == y && xs2 == x_start && xe2 == x_end && p2@ == seq![dir] + layout_path@,
                _ => false,
            },
    {
        match self {
            BorderHit::Vertical { layout_path, .. } => {
                layout_path.insert(0, dir);
                proof {
                    assert(layout_path@ =~= seq![dir] + old(self)->Vertical_layout_path@);
                }
            },
            BorderHit::Horizontal { layout_path, .. } => {
                layout_path.insert(0, dir);
                proof {
                    assert(layout_path@ =~= seq![dir] + old(self)->Horizontal_layout_path@);
                }
            },
        }
    }

    /// The path of the hit split from the root.
    pub fn path(&self) -> (p: &Vec<BorderDirection>)
        ensures
            p@ == (match self {
                BorderHit::Vertical { layout_path, .. } => layout_path@,
                BorderHit::Horizontal { layout_path, .. } => layout_path@,
            }),
    {
        match self {
            BorderHit::Vertical { layout_path, .. } => layout_path,
            BorderHit::Horizontal { layout_path, .. } => layout_path,
        }
    }

    /// True for a vertical border (of a side-by-side split).
    pub fn is_vertical(&self) -> (r: bool)
        ensures
            r == (self matches BorderHit::Vertical { .. }),
    {
        match self {
            BorderHit::Vertical { .. } => true,
            BorderHit::Horizontal { .. } => false,
        }
    }
}

/// Splits the leaf `target` into two, side by side, half and half.
fn split_h_owned(l: PaneLayout, target: PaneId, new: PaneId) -> (res: (PaneLayout, bool))
    ensures
        res == spec_split_h(l, target, new),
    decreases l,
{
    match l {
        PaneLayout::Single(id) => {
            if id == target {
                (
                    PaneLayout::HSplit {
                        left: Box::new(PaneLayout::Single(target)),
                        right: Box::new(PaneLayout::Single(new)),
                        ratio: 500,
                    },
                    true,
                )
            } else {
                (PaneLayout::Single(id), false)
            }
        },
        PaneLayout::HSplit { left, right, ratio } => {
            let (l2, ok) = split_h_owned(*left, target, new);
            if ok {
                (PaneLayout::HSplit { left: Box::new(l2), right, ratio }, true)
            } else {
                let (r2, ok2) = split_h_owned(*right, target, new);
                (PaneLayout::HSplit { left: Box::new(l2), right: Box::new(r2), ratio }, ok2)
            }
        },
        PaneLayout::VSplit { top, bottom, ratio } => {
            let (t2, ok) = split_h_owned(*top, target, new);
            if ok {
                (PaneLayout::VSplit { top: Box::new(t2), bottom, ratio }, true)
            } else {
                let (b2, ok2) = split_h_owned(*bottom, target, new);
                (PaneLayout::VSplit { top: Box::new(t2), bottom: Box::new(b2), ratio }, ok2)
            }
        },
    }
}

/// Splits the leaf `target` into two, stacked, half and half.
fn split_v_owned(l: PaneLayout, target: PaneId, new: PaneId) -> (res: (PaneLayout, bool))
    ensures
        res == spec_split_v(l, target, new),
    decreases l,
{
    match l {
        PaneLayout::Single(id) => {
            if id == target {
                (
                    PaneLayout::VSplit {
                        top: Box::new(PaneLayout::Single(target)),
                        bottom: Box::new(PaneLayout::Single(new)),
                        ratio: 500,
                    },
                    true,
                )
            } else {
                (PaneLayout::Single(id), false)
            }
        },
        PaneLayout::HSplit { left, right, ratio } => {
            let (l2, ok) = split_v_owned(*left, target, new);
            if ok {
                (PaneLayout::HSplit { left: Box::new(l2), right, ratio }, true)
            } else {
                let (r2, ok2) = split_v_owned(*right, target, new);
                (PaneLayout::HSplit { left: Box::new(l2), right: Box::new(r2), ratio }, ok2)
            }
        },
        PaneLayout::VSplit { top, bottom, ratio } => {
            let (t2, ok) = split_v_owned(*top, target, new);
            if ok {
                (PaneLayout::VSplit { top: Box::new(t2), bottom, ratio }, true)
            } else {
                let (b2, ok2) = split_v_owned(*bottom, target, new);
                (PaneLayout::VSplit { top: Box::new(t2), bottom: Box::new(b2), ratio }, ok2)
            }
        },
    }
}

/// Removes the leaf `target`, collapsing its parent split.
fn remove_pane_owned(l: PaneLayout, target: PaneId) -> (res: (PaneLayout, Option<PaneLayout>))
    ensures
        res.1 == spec_remove_pane(l, target),
        res.1 is None ==> res.0 == l,
    decreases l,
{
    match l {
        PaneLayout::Single(id) => (PaneLayout::Single(id), None),
        PaneLayout::HSplit { left, right, ratio } => {
            let left_is_target = match &*left {
                PaneLayout::Single(id) => *id == target,
                _ => false,
            };
            if left_is_target {
                let r = *right;
                return (PaneLayout::Single(target), Some(r));
            }
            let right_is_target = match &*right {
                PaneLayout::Single(id) => *id == target,
                _ => false,
            };
            if right_is_target {
                let lft = *left;
                return (PaneLayout::Single(target), Some(lft));
            }
            let (l1, removed_l) = remove_pane_owned(*left, target);
            match removed_l {
                Some(nl) => (
                    PaneLayout::Single(target),
                    Some(PaneLayout::HSplit { left: Box::new(nl), right, ratio }),
                ),
                None => {
                    let (r1, removed_r) = remove_pane_owned(*right, target);
                    match removed_r {
                        Some(nr) => (
                            PaneLayout::Single(target),
                            Some(
                                PaneLayout::HSplit {
                                    left: Box::new(l1),
                                    right: Box::new(nr),
                                    ratio,
                                },
                            ),
                        ),
                        None => (
                            PaneLayout::HSplit {
                                left: Box::new(l1),
                                right: Box::new(r1),
                                ratio,
                            },
                            None,
                        ),
                    }
                },
            }
        },
        PaneLayout::VSplit { top, bottom, ratio } => {
            let top_is_target = match &*top {
                PaneLayout::Single(id) => *id == target,
                _ => false,
            };
            if top_is_target {
                let b = *bottom;
                return (PaneLayout::Single(target), Some(b));
            }
            let bottom_is_target = match &*bottom {
                PaneLayout::Single(id) => *id == target,
                _ => false,
            };
            if bottom_is_target {
                let t = *top;
                return (PaneLayout::Single(target), Some(t));
            }
            let (t1, removed_t) = remove_pane_owned(*top, target);
            match removed_t {
                Some(nt) => (
                    PaneLayout::Single(target),
                    Some(PaneLayout::VSplit { top: Box::new(nt), bottom, ratio }),
                ),
                None => {
                    let (b1, removed_b) = remove_pane_owned(*bottom, target);
                    match removed_b {
                        Some(nb) => (
                            PaneLayout::Single(target),
                            Some(
                                PaneLayout::VSplit {
                                    top: Box::new(t1),
                                    bottom: Box::new(nb),
                                    ratio,
                                },
                            ),
                        ),
                        None => (
                            PaneLayout::VSplit {
                                top: Box::new(t1),
                                bottom: Box::new(b1),
                                ratio,
                            },
                            None,
                        ),
                    }
                },
            }
        },
    }
}

/// Sets the ratio of the split the path leads to.
fn update_ratio_owned(l: PaneLayout, path: &[BorderDirection], at: usize, new_ratio: u32) -> (res:
    PaneLayout)
    requires
        at <= path@.len(),
    ensures
        res == spec_update_ratio(l, path@.skip(at as int), new_ratio),
    decreases path@.len() - at, l,
{
    let clamped: u32 = if new_ratio < MIN_RATIO {
        MIN_RATIO
    } else if new_ratio > MAX_RATIO {
        MAX_RATIO
    } else {
        new_ratio
    };
    if at >= path.len() {
        proof {
            assert(path@.skip(at as int) =~= Seq::<BorderDirection>::empty());
        }
        match l {
            PaneLayout::Single(id) => PaneLayout::Single(id),
            PaneLayout::HSplit { left, right, ratio } => PaneLayout::HSplit {
                left,
                right,
                ratio: clamped,
            },
            PaneLayout::VSplit { top, bottom, ratio } => PaneLayout::VSplit {
                top,
                bottom,
                ratio: clamped,
            },
        }
    } else {
        proof {
            assert(path@.skip(at as int)[0] == path@[at as int]);
            assert(path@.skip(at as int).drop_first() =~= path@.skip(at + 1));
        }
        let d = path[at];
        match l {
            PaneLayout::Single(id) => PaneLayout::Single(id),
            PaneLayout::HSplit { left, right, ratio } => {
                if d == BorderDirection::Left {
                    PaneLayout::HSplit {
                        left: Box::new(update_ratio_owned(*left, path, at + 1, new_ratio)),
                        right,
                        ratio,
                    }
                } else if d == BorderDirection::Right {
                    PaneLayout::HSplit {
                        left,
                        right: Box::new(update_ratio_owned(*right, path, at + 1, new_ratio)),
                        ratio,
                    }
                } else {
                    PaneLayout::HSplit { left, right, ratio }
                }
            },
            PaneLayout::VSplit { top, bottom, ratio } => {
                if d == BorderDirection::Top {
                    PaneLayout::VSplit {
                        top: Box::new(update_ratio_owned(*top, path, at + 1, new_ratio)),
                        bottom,
                        ratio,
                    }
                } else if d == BorderDirection::Bottom {
                    PaneLayout::VSplit {
                        top,
                        bottom: Box::new(update_ratio_owned(*bottom, path, at + 1, new_ratio)),
                        ratio,
                    }
                } else {
                    PaneLayout::VSplit { top, bottom, ratio }
                }
            },
        }
    }
}

impl PaneLayout {
    /// A layout of one pane.
    pub fn single(id: PaneId) -> (l: PaneLayout)
        ensures
            l == PaneLayout::Single(id),
    {
        PaneLayout::Single(id)
    }

    /// Splits the leaf holding `target_id` into two, side by side, half and
    /// half; returns whether the leaf was found.
    pub fn split_horizontal(&mut self, target_id: PaneId, new_id: PaneId) -> (r: bool)
        ensures
            (*final(self), r) == spec_split_h(*old(self), target_id, new_id),
    {
        let mut tmp = PaneLayout::Single(PaneId(0));
        core::mem::swap(self, &mut tmp);
        let (l2, ok) = split_h_owned(tmp, target_id, new_id);
        *self = l2;
        ok
    }

    /// Splits the leaf holding `target_id` into two, stacked, half and
    /// half; returns whether the leaf was found.
    pub fn split_vertical(&mut self, target_id: PaneId, new_id: PaneId) -> (r: bool)
        ensures
            (*final(self), r) == spec_split_v(*old(self), target_id, new_id),
    {
        let mut tmp = PaneLayout::Single(PaneId(0));
        core::mem::swap(self, &mut tmp);
        let (l2, ok) = split_v_owned(tmp, target_id, new_id);
        *self = l2;
        ok
    }

    /// Removes the leaf holding `target_id` and returns the layout with
    /// its parent split collapsed; `None` leaves the layout unchanged.
    pub fn remove_pane(&mut self, target_id: PaneId) -> (r: Option<PaneLayout>)
        ensures
            r == spec_remove_pane(*old(self), target_id),
            r is None ==> *final(self) == *old(self),
    {
        let mut tmp = PaneLayout::Single(PaneId(0));
        core::mem::swap(self, &mut tmp);
        let (l1, removed) = remove_pane_owned(tmp, target_id);
        *self = l1;
        removed
    }

    /// Sets the ratio of the split the path leads to, clamped to
    /// `[MIN_RATIO, MAX_RATIO]`.
    pub fn update_ratio(&mut self, path: &[BorderDirection], new_ratio: u32)
        ensures
            *final(self) == spec_update_ratio(*old(self), path@, new_ratio),
    {
        let mut tmp = PaneLayout::Single(PaneId(0));
        core::mem::swap(self, &mut tmp);
        proof {
            assert(path@.skip(0) =~= path@);
        }
        let l2 = update_ratio_owned(tmp, path, 0, new_ratio);
        *self = l2;
    }

    /// The pane identifiers of all leaves, in order.
    pub fn all_pane_ids(&self) -> (v: Vec<PaneId>)
        ensures
            v@ == spec_pane_ids(*self),
        decreases *self,
    {
        match self {
            PaneLayout::Single(id) => {
                let mut v: Vec<PaneId> = Vec::new();
                v.push(*id);
                proof {
                    assert(v@ =~= spec_pane_ids(*self));
                }
                v
            },
            PaneLayout::HSplit { left, right, .. } => {
                let mut v = left.all_pane_ids();
                let mut r = right.all_pane_ids();
                v.append(&mut r);
                v
            },
            PaneLayout::VSplit { top, bottom, .. } => {
                let mut v = top.all_pane_ids();
                let mut r = bottom.all_pane_ids();
                v.append(&mut r);
                v
            },
        }
    }

    /// How many panes the layout holds.
    pub fn pane_count(&self) -> (n: usize)
        ensures
            n == spec_pane_ids(*self).len(),
    {
        self.all_pane_ids().len()
    }

    /// The `(pane, rectangle)` pairs obtained by recursively splitting
    /// `bounds` at each node's ratio.
    pub fn calculate_rects(&self, bounds: Rect) -> (v: Vec<(PaneId, Rect)>)
        requires
            layout_wf(*self),
            bounds.wf(),
        ensures
            v@ == spec_rects(*self, bounds),
        decreases *self,
    {
        match self {
            PaneLayout::Single(id) => {
                let mut v: Vec<(PaneId, Rect)> = Vec::new();
                v.push((*id, bounds));
                proof {
                    assert(v@ =~= spec_rects(*self, bounds));
                }
                v
            },
            PaneLayout::HSplit { left, right, ratio } => {
                proof {
                    lemma_share_bounds(bounds.width, *ratio);
                }
                let lw = ((bounds.width as u64) * (*ratio as u64) / 1000) as u32;
                let lb = Rect { x: bounds.x, y: bounds.y, width: lw, height: bounds.height };
                let rb = Rect {
                    x: bounds.x + lw,
                    y: bounds.y,
                    width: bounds.width - lw,
                    height: bounds.height,
                };
                let mut v = left.calculate_rects(lb);
                let mut r = right.calculate_rects(rb);
                v.append(&mut r);
                v
            },
            PaneLayout::VSplit { top, bottom, ratio } => {
                proof {
                    lemma_share_bounds(bounds.height, *ratio);
                }
                let th = ((bounds.height as u64) * (*ratio as u64) / 1000) as u32;
                let tb = Rect { x: bounds.x, y: bounds.y, width: bounds.width, height: th };
                let bb = Rect {
                    x: bounds.x,
                    y: bounds.y + th,
                    width: bounds.width,
                    height: bounds.height - th,
                };
                let mut v = top.calculate_rects(tb);
                let mut r = bottom.calculate_rects(bb);
                v.append(&mut r);
                v
            },
        }
    }

    /// The pane holding the given point of the bounds.
    pub fn pane_at(&self, x: u32, y: u32, bounds: Rect) -> (r: Option<PaneId>)
        requires
            layout_wf(*self),
            bounds.wf(),
        ensures
            r == spec_pane_at(*self, x, y, bounds),
        decreases *self,
    {
        match self {
            PaneLayout::Single(id) => {
                if bounds.x <= x && x < bounds.x + bounds.width && bounds.y <= y && y < bounds.y
                    + bounds.height {
                    Some(*id)
                } else {
                    None
                }
            },
            PaneLayout::HSplit { left, right, ratio } => {
                proof {
                    lemma_share_bounds(bounds.width, *ratio);
                }
                let lw = ((bounds.width as u64) * (*ratio as u64) / 1000) as u32;
                let split_x = bounds.x + lw;
                if x < split_x {
                    let lb = Rect { x: bounds.x, y: bounds.y, width: lw, height: bounds.height };
                    left.pane_at(x, y, lb)
                } else {
                    let rb = Rect {
                        x: split_x,
                        y: bounds.y,
                        width: bounds.width - lw,
                        height: bounds.height,
                    };
                    right.pane_at(x, y, rb)
                }
            },
            PaneLayout::VSplit { top, bottom, ratio } => {
                proof {
                    lemma_share_bounds(bounds.height, *ratio);
                }
                let th = ((bounds.height as u64) * (*ratio as u64) / 1000) as u32;
                let split_y = bounds.y + th;
                if y < split_y {
                    let tb = Rect { x: bounds.x, y: bounds.y, width: bounds.width, height: th };
                    top.pane_at(x, y, tb)
                } else {
                    let bb = Rect {
                        x: bounds.x,
                        y: split_y,
                        width: bounds.width,
                        height: bounds.height - th,
                    };
                    bottom.pane_at(x, y, bb)
                }
            },
        }
    }

    /// The pane after `current` in leaf order, wrapping; `None` for a
    /// single pane or an unknown identifier.
    pub fn next_pane(&self, current: PaneId) -> (r: Option<PaneId>)
        ensures
            r == spec_next_pane(*self, current),
    {
        let ids = self.all_pane_ids();
        if ids.len() <= 1 {
            return None;
        }
        match position_of(&ids, current) {
            Some(i) => {
                let next = if i + 1 < ids.len() {
                    i + 1
                } else {
                    0
                };
                proof {
                    assert(next as int == (i + 1) as int % ids@.len() as int) by {
                        if i + 1 < ids@.len() {
                            vstd::arithmetic::div_mod::lemma_small_mod(
                                (i + 1) as nat,
                                ids@.len() as nat,
                            );
                        } else {
                            vstd::arithmetic::div_mod::lemma_mod_self_0(ids@.len() as int);
                        }
                    }
                }
                Some(ids[next])
            },
            None => None,
        }
    }

    /// The pane before `current` in leaf order, wrapping; `None` for a
    /// single pane or an unknown identifier.
    pub fn prev_pane(&self, current: PaneId) -> (r: Option<PaneId>)
        ensures
            r == spec_prev_pane(*self, current),
    {
        let ids = self.all_pane_ids();
        if ids.len() <= 1 {
            return None;
        }
        match position_of(&ids, current) {
            Some(i) => {
                let prev = if i == 0 {
                    ids.len() - 1
                } else {
                    i - 1
                };
                Some(ids[prev])
            },
            None => None,
        }
    }
}

/// The first position of `x` in the sequence.
pub open spec fn spec_position_of(s: Seq<PaneId>, x: PaneId) -> Option<int>
    decreases s.len(),
{
    if s.len() == 0 {
        None
    } else if s[0] == x {
        Some(0)
    } else {
        match spec_position_of(s.drop_first(), x) {
            Some(i) => Some(i + 1),
            None => None,
        }
    }
}

/// The pane after `current` in leaf order, wrapping.
pub open spec fn spec_next_pane(l: PaneLayout, current: PaneId) -> Option<PaneId> {
    let ids = spec_pane_ids(l);
    if ids.len() <= 1 {
        None
    } else {
        match spec_position_of(ids, current) {
            Some(i) => Some(ids[(i + 1) % ids.len() as int]),
            None => None,
        }
    }
}

/// The pane before `current` in leaf order, wrapping.
pub open spec fn spec_prev_pane(l: PaneLayout, current: PaneId) -> Option<PaneId> {
    let ids = spec_pane_ids(l);
    if ids.len() <= 1 {
        None
    } else {
        match spec_position_of(ids, current) {
            Some(i) => Some(
                ids[if i == 0 {
                    ids.len() - 1
                } else {
                    i - 1
                }],
            ),
            None => None,
        }
    }
}

/// The first position of `x` in the vector.
fn position_of(v: &Vec<PaneId>, x: PaneId) -> (r: Option<usize>)
    ensures
        match r {
            Some(i) => spec_position_of(v@, x) == Some(i as int) && i < v@.len(),
            None => spec_position_of(v@, x) is None,
        },
{
    let n = v.len();
    let mut i: usize = 0;
    while i < n
        invariant
            n == v@.len(),
            i <= n,
            forall|j: int| 0 <= j < i ==> v@[j] != x,
        decreases n - i,
    {
        if v[i] == x {
            proof {
                lemma_position_of_at(v@, x, i as int);
            }
            return Some(i);
        }
        i = i + 1;
    }
    proof {
        lemma_position_of_none(v@, x);
    }
    None
}

/// A sequence whose first occurrence of `x` stands at `i` has that
/// position.
proof fn lemma_position_of_at(s: Seq<PaneId>, x: PaneId, i: int)
    requires
        0 <= i < s.len(),
        s[i] == x,
        forall|j: int| 0 <= j < i ==> s[j] != x,
    ensures
        spec_position_of(s, x) == Some(i),
    decreases i,
{
    if i == 0 {
    } else {
        lemma_position_of_at(s.drop_first(), x, i - 1);
    }
}

/// A sequence without `x` has no position for it.
proof fn lemma_position_of_none(s: Seq<PaneId>, x: PaneId)
    requires
        forall|j: int| 0 <= j < s.len() ==> s[j] != x,
    ensures
        spec_position_of(s, x) is None,
    decreases s.len(),
{
    if s.len() == 0 {
    } else {
        lemma_position_of_none(s.drop_first(), x);
    }
}


/// The mathematical model of a [`BorderHit`].
pub enum BorderHitView {
    Vertical { x: u32, y_start: u32, y_end: u32, path: Seq<BorderDirection> },
    Horizontal { y: u32, x_start: u32, x_end: u32, path: Seq<BorderDirection> },
}

impl View for BorderHit {
    type V = BorderHitView;

    open spec fn view(&self) -> BorderHitView {
        match self {
            BorderHit::Vertical { x, y_start, y_end, layout_path } => BorderHitView::Vertical {
                x: *x,
                y_start: *y_start,
                y_end: *y_end,
                path: layout_path@,
            },
            BorderHit::Horizontal { y, x_start, x_end, layout_path } => BorderHitView::Horizontal {
                y: *y,
                x_start: *x_start,
                x_end: *x_end,
                path: layout_path@,
            },
        }
    }
}

/// A hit with one more step prepended to its path.
pub open spec fn spec_hit_prepend(h: BorderHitView, d: BorderDirection) -> BorderHitView {
    match h {
        BorderHitView::Vertical { x, y_start, y_end, path } => BorderHitView::Vertical {
            x,
            y_start,
            y_end,
            path: seq![d] + path,
        },
        BorderHitView::Horizontal { y, x_start, x_end, path } => BorderHitView::Horizontal {
            y,
            x_start,
            x_end,
            path: seq![d] + path,
        },
    }
}

/// The absolute difference of two coordinates.
pub open spec fn spec_dist(a: int, b: int) -> int {
    if a >= b {
        a - b
    } else {
        b - a
    }
}

/// The border under the point, within `threshold` of a split line, with
/// the path of that split from the root.
pub open spec fn spec_border_at(
    l: PaneLayout,
    x: u32,
    y: u32,
    bounds: Rect,
    threshold: u32,
) -> Option<BorderHitView>
    decreases l,
{
    match l {
        PaneLayout::Single(_) => None,
        PaneLayout::HSplit { left, right, ratio } => {
            let split_x = bounds.x + spec_share(bounds.width, ratio);
            let (lb, rb) = spec_h_children(bounds, ratio);
            if spec_dist(x as int, split_x) < threshold && bounds.y <= y < bounds.y
                + bounds.height {
                Some(
                    BorderHitView::Vertical {
                        x: split_x as u32,
                        y_start: bounds.y,
                        y_end: (bounds.y + bounds.height) as u32,
                        path: Seq::empty(),
                    },
                )
            } else {
                match spec_border_at(*left, x, y, lb, threshold) {
                    Some(h) => Some(spec_hit_prepend(h, BorderDirection::Left)),
                    None => match spec_border_at(*right, x, y, rb, threshold) {
                        Some(h) => Some(spec_hit_prepend(h, BorderDirection::Right)),
                        None => None,
                    },
                }
            }
        },
        PaneLayout::VSplit { top, bottom, ratio } => {
            let split_y = bounds.y + spec_share(bounds.height, ratio);
            let (tb, bb) = spec_v_children(bounds, ratio);
            if spec_dist(y as int, split_y) < threshold && bounds.x <= x < bounds.x
                + bounds.width {
                Some(
                    BorderHitView::Horizontal {
                        y: split_y as u32,
                        x_start: bounds.x,
                        x_end: (bounds.x + bounds.width) as u32,
                        path: Seq::empty(),
                    },
                )
            } else {
                match spec_border_at(*top, x, y, tb, threshold) {
                    Some(h) => Some(spec_hit_prepend(h, BorderDirection::Top)),
                    None => match spec_border_at(*bottom, x, y, bb, threshold) {
                        Some(h) => Some(spec_hit_prepend(h, BorderDirection::Bottom)),
                        None => None,
                    },
                }
            }
        },
    }
}

impl PaneLayout {
    /// Finds the split border within `threshold` of the point, if any,
    /// with its geometry and path.
    pub fn border_at(&self, x: u32, y: u32, bounds: Rect, threshold: u32) -> (r: Option<
        BorderHit,
    >)
        requires
            layout_wf(*self),
            bounds.wf(),
        ensures
            match r {
                Some(h) => spec_border_at(*self, x, y, bounds, threshold) == Some(h@),
                None => spec_border_at(*self, x, y, bounds, threshold) is None,
            },
        decreases *self,
    {
        match self {
            PaneLayout::Single(_) => None,
            PaneLayout::HSplit { left, right, ratio } => {
                proof {
                    lemma_share_bounds(bounds.width, *ratio);
                }
                let lw = ((bounds.width as u64) * (*ratio as u64) / 1000) as u32;
                let split_x = bounds.x + lw;
                let dist = if x >= split_x {
                    x - split_x
                } else {
                    split_x - x
                };
                if dist < threshold && bounds.y <= y && y < bounds.y + bounds.height {
                    return Some(
                        BorderHit::Vertical {
                            x: split_x,
                            y_start: bounds.y,
                            y_end: bounds.y + bounds.height,
                            layout_path: Vec::new(),
                        },
                    );
                }
                let lb = Rect { x: bounds.x, y: bounds.y, width: lw, height: bounds.height };
                match left.border_at(x, y, lb, threshold) {
                    Some(mut h) => {
                        h.push_path(BorderDirection::Left);
                        return Some(h);
                    },
                    None => {},
                }
                let rb = Rect {
                    x: split_x,
                    y: bounds.y,
                    width: bounds.width - lw,
                    height: bounds.height,
                };
                match right.border_at(x, y, rb, threshold) {
                    Some(mut h) => {
                        h.push_path(BorderDirection::Right);
                        Some(h)
                    },
                    None => None,
                }
            },
            PaneLayout::VSplit { top, bottom, ratio } => {
                proof {
                    lemma_share_bounds(bounds.height, *ratio);
                }
                let th = ((bounds.height as u64) * (*ratio as u64) / 1000) as u32;
                let split_y = bounds.y + th;
                let dist = if y >= split_y {
                    y - split_y
                } else {
                    split_y - y
                };
                if dist < threshold && bounds.x <= x && x < bounds.x + bounds.width {
                    return Some(
                        BorderHit::Horizontal {
                            y: split_y,
                            x_start: bounds.x,
                            x_end: bounds.x + bounds.width,
                            layout_path: Vec::new(),
                        },
                    );
                }
                let tb = Rect { x: bounds.x, y: bounds.y, width: bounds.width, height: th };
                match top.border_at(x, y, tb, threshold) {
                    Some(mut h) => {
                        h.push_path(BorderDirection::Top);
                        return Some(h);
                    },
                    None => {},
                }
                let bb = Rect {
                    x: bounds.x,
                    y: split_y,
                    width: bounds.width,
                    height: bounds.height - th,
                };
                match bottom.border_at(x, y, bb, threshold) {
                    Some(mut h) => {
                        h.push_path(BorderDirection::Bottom);
                        Some(h)
                    },
                    None => None,
                }
            },
        }
    }
}

/// A concatenation holds an identifier exactly when one of its parts does.
proof fn lemma_contains_concat(a: Seq<PaneId>, b: Seq<PaneId>, x: PaneId)
    ensures
        (a + b).contains(x) <==> (a.contains(x) || b.contains(x)),
{
    if (a + b).contains(x) {
        let i = choose|i: int| 0 <= i < (a + b).len() && (a + b)[i] == x;
        if i < a.len() {
            assert(a[i] == x);
        } else {
            assert(b[i - a.len()] == x);
        }
    }
    if a.contains(x) {
        let i = choose|i: int| 0 <= i < a.len() && a[i] == x;
        assert((a + b)[i] == x);
    }
    if b.contains(x) {
        let i = choose|i: int| 0 <= i < b.len() && b[i] == x;
        assert((a + b)[a.len() + i] == x);
    }
}

/// A layout without the target splits to itself, unfound.
proof fn lemma_split_h_absent(l: PaneLayout, t: PaneId, n: PaneId)
    requires
        !spec_pane_ids(l).contains(t),
    ensures
        spec_split_h(l, t, n) == (l, false),
    decreases l,
{
    match l {
        PaneLayout::Single(id) => {
            assert(spec_pane_ids(l)[0] == id);
        },
        PaneLayout::HSplit { left, right, ratio } => {
            lemma_contains_concat(spec_pane_ids(*left), spec_pane_ids(*right), t);
            lemma_split_h_absent(*left, t, n);
            lemma_split_h_absent(*right, t, n);
        },
        PaneLayout::VSplit { top, bottom, ratio } => {
            lemma_contains_concat(spec_pane_ids(*top), spec_pane_ids(*bottom), t);
            lemma_split_h_absent(*top, t, n);
            lemma_split_h_absent(*bottom, t, n);
        },
    }
}

/// A layout without the target splits to itself, unfound.
proof fn lemma_split_v_absent(l: PaneLayout, t: PaneId, n: PaneId)
    requires
        !spec_pane_ids(l).contains(t),
    ensures
        spec_split_v(l, t, n) == (l, false),
    decreases l,
{
    match l {
        PaneLayout::Single(id) => {
            assert(spec_pane_ids(l)[0] == id);
        },
        PaneLayout::HSplit { left, right, ratio } => {
            lemma_contains_concat(spec_pane_ids(*left), spec_pane_ids(*right), t);
            lemma_split_v_absent(*left, t, n);
            lemma_split_v_absent(*right, t, n);
        },
        PaneLayout::VSplit { top, bottom, ratio } => {
            lemma_contains_concat(spec_pane_ids(*top), spec_pane_ids(*bottom), t);
            lemma_split_v_absent(*top, t, n);
            lemma_split_v_absent(*bottom, t, n);
        },
    }
}

/// A successful split never leaves a bare leaf at its root.
proof fn lemma_split_h_not_single(l: PaneLayout, t: PaneId, n: PaneId)
    ensures
        spec_split_h(l, t, n).1 ==> !(spec_split_h(l, t, n).0 matches PaneLayout::Single(_)),
    decreases l,
{
}

/// A successful split never leaves a bare leaf at its root.
proof fn lemma_split_v_not_single(l: PaneLayout, t: PaneId, n: PaneId)
    ensures
        spec_split_v(l, t, n).1 ==> !(spec_split_v(l, t, n).0 matches PaneLayout::Single(_)),
    decreases l,
{
}

/// Removing an identifier a layout does not hold changes nothing.
proof fn lemma_remove_absent(l: PaneLayout, x: PaneId)
    requires
        !spec_pane_ids(l).contains(x),
    ensures
        spec_remove_pane(l, x) is None,
    decreases l,
{
    match l {
        PaneLayout::Single(_) => {},
        PaneLayout::HSplit { left, right, ratio } => {
            lemma_contains_concat(spec_pane_ids(*left), spec_pane_ids(*right), x);
            match *left {
                PaneLayout::Single(id) => {
                    assert(spec_pane_ids(*left)[0] == id);
                },
                _ => {},
            }
            match *right {
                PaneLayout::Single(id) => {
                    assert(spec_pane_ids(*right)[0] == id);
                },
                _ => {},
            }
            lemma_remove_absent(*left, x);
            lemma_remove_absent(*right, x);
        },
        PaneLayout::VSplit { top, bottom, ratio } => {
            lemma_contains_concat(spec_pane_ids(*top), spec_pane_ids(*bottom), x);
            match *top {
                PaneLayout::Single(id) => {
                    assert(spec_pane_ids(*top)[0] == id);
                },
                _ => {},
            }
            match *bottom {
                PaneLayout::Single(id) => {
                    assert(spec_pane_ids(*bottom)[0] == id);
                },
                _ => {},
            }
            lemma_remove_absent(*top, x);
            lemma_remove_absent(*bottom, x);
        },
    }
}

/// Splitting a pane sideways and then removing the new pane restores the
/// layout exactly.
pub proof fn lemma_split_h_remove_round_trip(l: PaneLayout, t: PaneId, n: PaneId)
    requires
        spec_pane_ids(l).contains(t),
        !spec_pane_ids(l).contains(n),
    ensures
        spec_split_h(l, t, n).1,
        spec_remove_pane(spec_split_h(l, t, n).0, n) == Some(l),
    decreases l,
{
    match l {
        PaneLayout::Single(id) => {
            assert(spec_pane_ids(l)[0] == id);
            assert(spec_pane_ids(l).len() == 1);
            assert(id == t);
        },
        PaneLayout::HSplit { left, right, ratio } => {
            lemma_contains_concat(spec_pane_ids(*left), spec_pane_ids(*right), t);
            lemma_contains_concat(spec_pane_ids(*left), spec_pane_ids(*right), n);
            if spec_pane_ids(*left).contains(t) {
                lemma_split_h_remove_round_trip(*left, t, n);
                lemma_split_h_not_single(*left, t, n);
                let l2 = spec_split_h(*left, t, n).0;
                match *right {
                    PaneLayout::Single(id) => {
                        assert(spec_pane_ids(*right)[0] == id);
                    },
                    _ => {},
                }
            } else {
                lemma_split_h_absent(*left, t, n);
                lemma_split_h_remove_round_trip(*right, t, n);
                lemma_split_h_not_single(*right, t, n);
                match *left {
                    PaneLayout::Single(id) => {
                        assert(spec_pane_ids(*left)[0] == id);
                    },
                    _ => {},
                }
                lemma_remove_absent(*left, n);
            }
        },
        PaneLayout::VSplit { top, bottom, ratio } => {
            lemma_contains_concat(spec_pane_ids(*top), spec_pane_ids(*bottom), t);
            lemma_contains_concat(spec_pane_ids(*top), spec_pane_ids(*bottom), n);
            if spec_pane_ids(*top).contains(t) {
                lemma_split_h_remove_round_trip(*top, t, n);
                lemma_split_h_not_single(*top, t, n);
                match *bottom {
                    PaneLayout::Single(id) => {
                        assert(spec_pane_ids(*bottom)[0] == id);
                    },
                    _ => {},
                }
            } else {
                lemma_split_h_absent(*top, t, n);
                lemma_split_h_remove_round_trip(*bottom, t, n);
                lemma_split_h_not_single(*bottom, t, n);
                match *top {
                    PaneLayout::Single(id) => {
                        assert(spec_pane_ids(*top)[0] == id);
                    },
                    _ => {},
                }
                lemma_remove_absent(*top, n);
            }
        },
    }
}

/// Splitting a pane stacked and then removing the new pane restores the
/// layout exactly.
pub proof fn lemma_split_v_remove_round_trip(l: PaneLayout, t: PaneId, n: PaneId)
    requires
        spec_pane_ids(l).contains(t),
        !spec_pane_ids(l).contains(n),
    ensures
        spec_split_v(l, t, n).1,
        spec_remove_pane(spec_split_v(l, t, n).0, n) == Some(l),
    decreases l,
{
    match l {
        PaneLayout::Single(id) => {
            assert(spec_pane_ids(l)[0] == id);
            assert(spec_pane_ids(l).len() == 1);
            assert(id == t);
        },
        PaneLayout::HSplit { left, right, ratio } => {
            lemma_contains_concat(spec_pane_ids(*left), spec_pane_ids(*right), t);
            lemma_contains_concat(spec_pane_ids(*left), spec_pane_ids(*right), n);
            if spec_pane_ids(*left).contains(t) {
                lemma_split_v_remove_round_trip(*left, t, n);
                lemma_split_v_not_single(*left, t, n);
                match *right {
                    PaneLayout::Single(id) => {
                        assert(spec_pane_ids(*right)[0] == id);
                    },
                    _ => {},
                }
            } else {
                lemma_split_v_absent(*left, t, n);
                lemma_split_v_remove_round_trip(*right, t, n);
                lemma_split_v_not_single(*right, t, n);
                match *left {
                    PaneLayout::Single(id) => {
                        assert(spec_pane_ids(*left)[0] == id);
                    },
                    _ => {},
                }
                lemma_remove_absent(*left, n);
            }
        },
        PaneLayout::VSplit { top, bottom, ratio } => {
            lemma_contains_concat(spec_pane_ids(*top), spec_pane_ids(*bottom), t);
            lemma_contains_concat(spec_pane_ids(*top), spec_pane_ids(*bottom), n);
            if spec_pane_ids(*top).contains(t) {
                lemma_split_v_remove_round_trip(*top, t, n);
                lemma_split_v_not_single(*top, t, n);
                match *bottom {
                    PaneLayout::Single(id) => {
                        assert(spec_pane_ids(*bottom)[0] == id);
                    },
                    _ => {},
                }
            } else {
                lemma_split_v_absent(*top, t, n);
                lemma_split_v_remove_round_trip(*bottom, t, n);
                lemma_split_v_not_single(*bottom, t, n);
                match *top {
                    PaneLayout::Single(id) => {
                        assert(spec_pane_ids(*top)[0] == id);
                    },
                    _ => {},
                }
                lemma_remove_absent(*top, n);
            }
        },
    }
}

/// Setting a split's ratio twice to the same value is the same as setting
/// it once.
pub proof fn lemma_update_ratio_idempotent(l: PaneLayout, path: Seq<BorderDirection>, r: u32)
    ensures
        spec_update_ratio(spec_update_ratio(l, path, r), path, r) == spec_update_ratio(l, path, r),
    decreases path.len(), l,
{
    if path.len() == 0 {
    } else {
        match l {
            PaneLayout::Single(_) => {},
            PaneLayout::HSplit { left, right, ratio } => {
                lemma_update_ratio_idempotent(*left, path.drop_first(), r);
                lemma_update_ratio_idempotent(*right, path.drop_first(), r);
            },
            PaneLayout::VSplit { top, bottom, ratio } => {
                lemma_update_ratio_idempotent(*top, path.drop_first(), r);
                lemma_update_ratio_idempotent(*bottom, path.drop_first(), r);
            },
        }
    }
}

/// The rectangles of a layout tile their bounds: each carries its leaf's
/// pane in leaf order, each lies inside the bounds, together they cover
/// every point of the bounds, and no two overlap.
pub proof fn lemma_layout_tiling(l: PaneLayout, bounds: Rect)
    requires
        layout_wf(l),
        bounds.wf(),
    ensures
        spec_rects(l, bounds).len() == spec_pane_ids(l).len(),
        forall|i: int|
            0 <= i < spec_rects(l, bounds).len() ==> (#[trigger] spec_rects(l, bounds)[i]).0
                == spec_pane_ids(l)[i],
        forall|i: int|
            0 <= i < spec_rects(l, bounds).len() ==> (#[trigger] spec_rects(l, bounds)[i]).1.wf(),
        forall|i: int, px: int, py: int|
            0 <= i < spec_rects(l, bounds).len() && #[trigger] spec_rects(
                l,
                bounds,
            )[i].1.spec_contains(px, py) ==> bounds.spec_contains(px, py),
        forall|px: int, py: int|
            #[trigger] bounds.spec_contains(px, py) ==> exists|i: int|
                0 <= i < spec_rects(l, bounds).len() && #[trigger] spec_rects(
                    l,
                    bounds,
                )[i].1.spec_contains(px, py),
        forall|i: int, j: int, px: int, py: int|
            0 <= i < j < spec_rects(l, bounds).len() ==> !(#[trigger] spec_rects(
                l,
                bounds,
            )[i].1.spec_contains(px, py) && #[trigger] spec_rects(l, bounds)[j].1.spec_contains(
                px,
                py,
            )),
    decreases l,
{
    match l {
        PaneLayout::Single(id) => {
            assert forall|px: int, py: int| #[trigger] bounds.spec_contains(px, py) implies exists|
                i: int,
            |
                0 <= i < spec_rects(l, bounds).len() && #[trigger] spec_rects(
                    l,
                    bounds,
                )[i].1.spec_contains(px, py) by {
                assert(spec_rects(l, bounds)[0].1.spec_contains(px, py));
            }
        },
        PaneLayout::HSplit { left, right, ratio } => {
            lemma_share_bounds(bounds.width, ratio);
            let (lb, rb) = spec_h_children(bounds, ratio);
            lemma_layout_tiling(*left, lb);
            lemma_layout_tiling(*right, rb);
            let rl = spec_rects(*left, lb);
            let rr = spec_rects(*right, rb);
            let all = spec_rects(l, bounds);
            assert(all == rl + rr);
            let idl = spec_pane_ids(*left);
            assert(spec_pane_ids(l) == idl + spec_pane_ids(*right));
            assert forall|i: int| 0 <= i < all.len() implies (#[trigger] all[i]).0
                == spec_pane_ids(l)[i] && all[i].1.wf() by {
                if i < rl.len() {
                    assert(all[i] == rl[i]);
                } else {
                    assert(all[i] == rr[i - rl.len()]);
                }
            }
            assert forall|i: int, px: int, py: int|
                0 <= i < all.len() && #[trigger] all[i].1.spec_contains(px, py) implies
                bounds.spec_contains(px, py) by {
                if i < rl.len() {
                    assert(all[i] == rl[i]);
                    assert(lb.spec_contains(px, py));
                } else {
                    assert(all[i] == rr[i - rl.len()]);
                    assert(rb.spec_contains(px, py));
                }
            }
            assert forall|px: int, py: int| #[trigger] bounds.spec_contains(px, py) implies exists|
                i: int,
            |
                0 <= i < all.len() && #[trigger] all[i].1.spec_contains(px, py) by {
                if px < lb.x + lb.width {
                    assert(lb.spec_contains(px, py));
                    let i = choose|i: int|
                        0 <= i < rl.len() && #[trigger] rl[i].1.spec_contains(px, py);
                    assert(all[i] == rl[i]);
                    assert(all[i].1.spec_contains(px, py));
                } else {
                    assert(rb.spec_contains(px, py));
                    let i = choose|i: int|
                        0 <= i < rr.len() && #[trigger] rr[i].1.spec_contains(px, py);
                    assert(all[rl.len() + i] == rr[i]);
                    assert(all[rl.len() + i].1.spec_contains(px, py));
                }
            }
            assert forall|i: int, j: int, px: int, py: int|
                0 <= i < j < all.len() implies !(#[trigger] all[i].1.spec_contains(px, py)
                && #[trigger] all[j].1.spec_contains(px, py)) by {
                if all[i].1.spec_contains(px, py) && all[j].1.spec_contains(px, py) {
                    if j < rl.len() {
                        assert(all[i] == rl[i]);
                        assert(all[j] == rl[j]);
                    } else if i >= rl.len() {
                        assert(all[i] == rr[i - rl.len()]);
                        assert(all[j] == rr[j - rl.len()]);
                    } else {
                        assert(all[i] == rl[i]);
                        assert(all[j] == rr[j - rl.len()]);
                        assert(lb.spec_contains(px, py));
                        assert(rb.spec_contains(px, py));
                    }
                }
            }
        },
        PaneLayout::VSplit { top, bottom, ratio } => {
            lemma_share_bounds(bounds.height, ratio);
            let (tb, bb) = spec_v_children(bounds, ratio);
            lemma_layout_tiling(*top, tb);
            lemma_layout_tiling(*bottom, bb);
            let rl = spec_rects(*top, tb);
            let rr = spec_rects(*bottom, bb);
            let all = spec_rects(l, bounds);
            assert(all == rl + rr);
            assert(spec_pane_ids(l) == spec_pane_ids(*top) + spec_pane_ids(*bottom));
            assert forall|i: int| 0 <= i < all.len() implies (#[trigger] all[i]).0
                == spec_pane_ids(l)[i] && all[i].1.wf() by {
                if i < rl.len() {
                    assert(all[i] == rl[i]);
                } else {
                    assert(all[i] == rr[i - rl.len()]);
                }
            }
            assert forall|i: int, px: int, py: int|
                0 <= i < all.len() && #[trigger] all[i].1.spec_contains(px, py) implies
                bounds.spec_contains(px, py) by {
                if i < rl.len() {
                    assert(all[i] == rl[i]);
                    assert(tb.spec_contains(px, py));
                } else {
                    assert(all[i] == rr[i - rl.len()]);
                    assert(bb.spec_contains(px, py));
                }
            }
            assert forall|px: int, py: int| #[trigger] bounds.spec_contains(px, py) implies exists|
                i: int,
            |
                0 <= i < all.len() && #[trigger] all[i].1.spec_contains(px, py) by {
                if py < tb.y + tb.height {
                    assert(tb.spec_contains(px, py));
                    let i = choose|i: int|
                        0 <= i < rl.len() && #[trigger] rl[i].1.spec_contains(px, py);
                    assert(all[i] == rl[i]);
                    assert(all[i].1.spec_contains(px, py));
                } else {
                    assert(bb.spec_contains(px, py));
                    let i = choose|i: int|
                        0 <= i < rr.len() && #[trigger] rr[i].1.spec_contains(px, py);
                    assert(all[rl.len() + i] == rr[i]);
                    assert(all[rl.len() + i].1.spec_contains(px, py));
                }
            }
            assert forall|i: int, j: int, px: int, py: int|
                0 <= i < j < all.len() implies !(#[trigger] all[i].1.spec_contains(px, py)
                && #[trigger] all[j].1.spec_contains(px, py)) by {
                if all[i].1.spec_contains(px, py) && all[j].1.spec_contains(px, py) {
                    if j < rl.len() {
                        assert(all[i] == rl[i]);
                        assert(all[j] == rl[j]);
                    } else if i >= rl.len() {
                        assert(all[i] == rr[i - rl.len()]);
                        assert(all[j] == rr[j - rl.len()]);
                    } else {
                        assert(all[i] == rl[i]);
                        assert(all[j] == rr[j - rl.len()]);
                        assert(tb.spec_contains(px, py));
                        assert(bb.spec_contains(px, py));
                    }
                }
            }
        },
    }
}

} // verus!
