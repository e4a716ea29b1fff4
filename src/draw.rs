use vstd::prelude::*;

use crate::canvas::{label_fits, label_rect, label_rect_spec, DrawOp, BOX_HEIGHT, TEXT_PAD};
use crate::lattice::{
    extent_fits, laid_out, lemma_extent_fits_same_tree, lemma_same_tree_trans,
    lemma_slots_stored_kept, same_tree, slots_fit, slots_stored, Lattice, B_HEIGHT, G_HEIGHT,
};
use crate::rect::Rect;

verus! {

/// Horizontal gap between a node's box and its children's boxes.
pub const H_GAP: i32 = 50;

/// Border width of every drawn box.
pub const BORDER: usize = 4;

/// The node and `b` are equal but for the recorded boxes.
pub open spec fn same_but_rect(a: Lattice, b: Lattice) -> bool
    decreases a,
{
    &&& a.text == b.text
    &&& a.sub_height == b.sub_height
    &&& a.h == b.h
    &&& a.u == b.u
    &&& a.d == b.d
    &&& a.image_width == b.image_width
    &&& a.image_height == b.image_height
    &&& a.sub_list@.len() == b.sub_list@.len()
    &&& forall|i: int|
        0 <= i < a.sub_list@.len() ==> same_but_rect(#[trigger] a.sub_list@[i], b.sub_list@[i])
}

/// The box of the node when it is drawn with its top-left pixel at `(x, y)`.
pub open spec fn node_box(n: Lattice, x: int, y: int) -> Rect {
    label_rect_spec(x, y, n.image_width as int)
}

/// Row of the vertical centre of a box whose top row is `y`: the sum of its top
/// and bottom rows halved, rounded toward zero.
pub open spec fn box_mid(y: int) -> int {
    let s = y + (y + BOX_HEIGHT - 1);
    if s >= 0 {
        s / 2
    } else {
        -((-s) / 2)
    }
}

/// Centre row of the box whose top and bottom rows are given.
fn mid_row(top: i32, bottom: i32) -> (r: i32)
    requires
        bottom == top + BOX_HEIGHT - 1,
    ensures
        r == box_mid(top as int),
{
    let s: i64 = top as i64 + bottom as i64;
    if s >= 0 {
        (s / 2) as i32
    } else {
        -(((-s) / 2) as i32)
    }
}

/// Column of the children's boxes.
pub open spec fn child_x(n: Lattice, x: int) -> int {
    x + n.image_width + TEXT_PAD - 1 + H_GAP
}

/// Top row of child `j`: a single child is level with its parent; otherwise the
/// children start at the parent's centre less half its span, and each next one
/// starts a box height, the previous child's `d`, a gap and its own `u` lower.
pub open spec fn child_y(n: Lattice, y: int, j: int) -> int
    decreases j,
{
    if n.sub_list@.len() == 1 {
        y
    } else if j <= 0 {
        box_mid(y) - n.h / 2
    } else {
        child_y(n, y, j - 1) + B_HEIGHT + n.sub_list@[j - 1].d + G_HEIGHT + n.sub_list@[j].u
    }
}

/// Every coordinate computed while drawing the subtree at `(x, y)` is an `i32`.
pub open spec fn draw_fits(n: Lattice, x: int, y: int) -> bool
    decreases n,
{
    &&& n.image_width <= i32::MAX
    &&& label_fits(x, y, n.image_width as int)
    &&& (n.sub_list@.len() > 0 ==> child_x(n, x) <= i32::MAX)
    &&& forall|j: int|
        0 <= j < n.sub_list@.len() ==> draw_fits(
            #[trigger] n.sub_list@[j],
            child_x(n, x),
            child_y(n, y, j),
        )
}

/// Left-edge and right-edge centre points of a box.
pub open spec fn left_point(r: Rect) -> (i32, i32) {
    (r.left, box_mid(r.top as int) as i32)
}

pub open spec fn right_point(r: Rect) -> (i32, i32) {
    (r.right_spec() as i32, box_mid(r.top as int) as i32)
}

/// The node's own operations: its box, then the link that reaches it.
pub open spec fn head_ops(n: Lattice, x: int, y: int, prefix: Option<(i32, i32)>) -> Seq<DrawOp> {
    let r = node_box(n, x, y);
    seq![DrawOp::Label(r, n.text)] + match prefix {
        Some(p) => seq![DrawOp::Link(p, left_point(r))],
        None => Seq::<DrawOp>::empty(),
    }
}

/// Operations that draw the subtree at `(x, y)`, the node before its children and
/// the children in order.
pub open spec fn draw_ops(n: Lattice, x: int, y: int, prefix: Option<(i32, i32)>) -> Seq<DrawOp>
    decreases n, n.sub_list@.len() + 1,
{
    head_ops(n, x, y, prefix) + kids_ops(n, x, y, n.sub_list@.len() as int)
}

/// Operations that draw the children of index `0 .. j`.
pub open spec fn kids_ops(n: Lattice, x: int, y: int, j: int) -> Seq<DrawOp>
    decreases n, j,
{
    if j <= 0 || j > n.sub_list@.len() {
        Seq::empty()
    } else {
        kids_ops(n, x, y, j - 1) + draw_ops(
            n.sub_list@[j - 1],
            child_x(n, x),
            child_y(n, y, j - 1),
            Some(right_point(node_box(n, x, y))),
        )
    }
}

/// Every node of the subtree drawn at `(x, y)` holds its box.
pub open spec fn rects_recorded(n: Lattice, x: int, y: int) -> bool
    decreases n,
{
    &&& n.rect == Some(node_box(n, x, y))
    &&& forall|j: int|
        0 <= j < n.sub_list@.len() ==> rects_recorded(
            #[trigger] n.sub_list@[j],
            child_x(n, x),
            child_y(n, y, j),
        )
}

proof fn lemma_child_y_same(a: Lattice, b: Lattice, y: int, j: int)
    requires
        a.h == b.h,
        a.sub_list@.len() == b.sub_list@.len(),
        forall|k: int|
            0 <= k < a.sub_list@.len() ==> (#[trigger] a.sub_list@[k]).u == b.sub_list@[k].u
                && a.sub_list@[k].d == b.sub_list@[k].d,
        j < a.sub_list@.len(),
    ensures
        child_y(a, y, j) == child_y(b, y, j),
    decreases j,
{
    if j > 0 && a.sub_list@.len() != 1 {
        lemma_child_y_same(a, b, y, j - 1);
        assert(a.sub_list@[j - 1].d == b.sub_list@[j - 1].d);
        assert(a.sub_list@[j].u == b.sub_list@[j].u);
    }
}

/// When a node has two or more children, each child's box starts at least a box
/// height and a gap below the previous sibling's, so sibling boxes never overlap.
pub proof fn lemma_siblings_apart(n: Lattice, y: int, j: int)
    requires
        n.sub_list@.len() >= 2,
        0 < j < n.sub_list@.len(),
    ensures
        child_y(n, y, j) >= child_y(n, y, j - 1) + B_HEIGHT + G_HEIGHT,
        child_y(n, y, j) > child_y(n, y, j - 1) + BOX_HEIGHT - 1,
{
}

impl Lattice {
    /// Draws the subtree with the node's box at `(w0, h0)`: records each node's
    /// box and appends to `ops` the node's box, the link from `prefix` to the
    /// box's left-edge centre, and then each child's drawing, children placed
    /// right of the box and stacked by their extents. Each node's box is sized
    /// from its `image_width`, the measured width of its label, which the caller
    /// fills in beforehand.
    #[verifier::loop_isolation(false)]
    #[verifier::rlimit(100)]
    pub fn draw_node(&mut self, ops: &mut Vec<DrawOp>, w0: i32, h0: i32, prefix: Option<(i32, i32)>)
        requires
            draw_fits(*old(self), w0 as int, h0 as int),
        ensures
            final(ops)@ == old(ops)@ + draw_ops(*old(self), w0 as int, h0 as int, prefix),
            same_but_rect(*old(self), *final(self)),
            rects_recorded(*final(self), w0 as int, h0 as int),
        decreases *old(self),
    {
        let ghost before = *self;
        let ghost ops0 = ops@;
        let r = label_rect((w0, h0), self.image_width as i32);
        ops.push(DrawOp::Label(r, self.text.clone()));
        self.rect = Some(r);
        let left = r.left();
        let right = r.right();
        let top = r.top();
        let bottom = r.bottom();
        let mid = mid_row(top, bottom);
        let left_point = (left, mid);
        let right_end = (right, mid);
        match prefix {
            Some(start) => {
                ops.push(DrawOp::Link(start, left_point));
            },
            None => {},
        }
        assert(ops@ =~= ops0 + head_ops(before, w0 as int, h0 as int, prefix));
        let count = self.sub_list.len();
        if count == 0 {
            proof {
                assert(ops@ =~= ops0 + draw_ops(before, w0 as int, h0 as int, prefix));
            }
            return;
        }
        let w1 = right + H_GAP;
        let ghost x1 = child_x(before, w0 as int);
        let ghost base = ops@;
        assert(draw_fits(before.sub_list@[0], x1, child_y(before, h0 as int, 0)));
        let mut cursor: i64 = if count == 1 {
            top as i64
        } else {
            mid as i64 - (self.h / 2) as i64
        };
        let mut j: usize = 0;
        while j < count
            invariant
                0 <= j <= count,
                count == self.sub_list@.len(),
                count == before.sub_list@.len(),
                draw_fits(before, w0 as int, h0 as int),
                self.text == before.text,
                self.sub_height == before.sub_height,
                self.h == before.h,
                self.u == before.u,
                self.d == before.d,
                self.image_width == before.image_width,
                self.image_height == before.image_height,
                self.rect == Some(node_box(before, w0 as int, h0 as int)),
                j < count ==> cursor == child_y(before, h0 as int, j as int),
                ops@ == base + kids_ops(before, w0 as int, h0 as int, j as int),
                forall|k: int|
                    0 <= k < j ==> same_but_rect(before.sub_list@[k], #[trigger] self.sub_list@[k])
                        && rects_recorded(self.sub_list@[k], x1, child_y(before, h0 as int, k)),
                forall|k: int| j <= k < count ==> #[trigger] self.sub_list@[k] == before.sub_list@[k],
            decreases count - j,
        {
            assert(draw_fits(before.sub_list@[j as int], x1, child_y(before, h0 as int, j as int)));
            assert(decreases_to!(before => before.sub_list@[j as int]));
            let ghost ops_before = ops@;
            self.sub_list[j].draw_node(ops, w1, cursor as i32, Some(right_end));
            assert(ops@ =~= base + kids_ops(before, w0 as int, h0 as int, j + 1));
            if j + 1 < count && count >= 2 {
                let ghost next_y = child_y(before, h0 as int, j + 1);
                assert(draw_fits(before.sub_list@[j + 1], x1, next_y));
                assert(next_y == cursor + B_HEIGHT + before.sub_list@[j as int].d + G_HEIGHT
                    + before.sub_list@[j + 1].u);
                assert(same_but_rect(before.sub_list@[j as int], self.sub_list@[j as int]));
                cursor = cursor + B_HEIGHT as i64 + self.sub_list[j].d as i64 + G_HEIGHT as i64
                    + self.sub_list[j + 1].u as i64;
            }
            j += 1;
        }
        proof {
            assert(same_but_rect(before, *self));
            assert forall|k: int| 0 <= k < count implies rects_recorded(
                #[trigger] self.sub_list@[k],
                child_x(*self, w0 as int),
                child_y(*self, h0 as int, k),
            ) by {
                assert(same_but_rect(before.sub_list@[k], self.sub_list@[k]));
                lemma_child_y_same(before, *self, h0 as int, k);
            }
            assert(ops@ =~= ops0 + draw_ops(before, w0 as int, h0 as int, prefix));
        }
    }

    /// Whether every coordinate of drawing the subtree with the node's box at
    /// `(x, y)` is an `i32`; the layout fields are read as they stand.
    #[verifier::loop_isolation(false)]
    #[verifier::rlimit(50)]
    pub fn fits_at(&self, x: i32, y: i32) -> (r: bool)
        ensures
            r == draw_fits(*self, x as int, y as int),
        decreases *self,
    {
        let w = self.image_width;
        if w > i32::MAX as usize || x as i64 + w as i64 + TEXT_PAD as i64 - 1 > i32::MAX as i64
            || y as i64 + BOX_HEIGHT as i64 - 1 > i32::MAX as i64 {
            return false;
        }
        let count = self.sub_list.len();
        if count == 0 {
            return true;
        }
        let cx = x as i64 + w as i64 + TEXT_PAD as i64 - 1 + H_GAP as i64;
        if cx > i32::MAX as i64 {
            return false;
        }
        let mid = mid_row(y, y + (BOX_HEIGHT as i32 - 1)) as i128;
        let mut cursor: i128 = if count == 1 {
            y as i128
        } else {
            mid - (self.h / 2) as i128
        };
        let mut j: usize = 0;
        while j < count
            invariant
                0 <= j <= count,
                count == self.sub_list@.len(),
                j < count ==> cursor == child_y(*self, y as int, j as int),
                i32::MIN - usize::MAX <= cursor <= i32::MAX + 2 * (usize::MAX as int) + 50,
                forall|k: int|
                    0 <= k < j ==> draw_fits(
                        #[trigger] self.sub_list@[k],
                        cx as int,
                        child_y(*self, y as int, k),
                    ),
            decreases count - j,
        {
            if cursor < i32::MIN as i128 || cursor > i32::MAX as i128 {
                assert(!draw_fits(self.sub_list@[j as int], cx as int, cursor as int));
                return false;
            }
            assert(decreases_to!(*self => self.sub_list@[j as int]));
            if !self.sub_list[j].fits_at(cx as i32, cursor as i32) {
                return false;
            }
            if j + 1 < count {
                cursor = cursor + B_HEIGHT as i128 + self.sub_list[j].d as i128 + G_HEIGHT as i128
                    + self.sub_list[j + 1].u as i128;
            }
            j += 1;
        }
        true
    }

    /// Runs the box-count and extent passes, then, when the laid-out tree fits
    /// the coordinate range at `(w0, h0)`, draws it with the root's box there,
    /// appending the drawing to `ops`, and returns `true`. Otherwise (a coordinate
    /// would overflow `i32`) draws nothing and returns `false`. Each node's
    /// `image_width`, the measured width of its label, is filled in beforehand.
    pub fn draw_start(&mut self, ops: &mut Vec<DrawOp>, w0: i32, h0: i32) -> (r: bool)
        requires
            slots_fit(*old(self)),
            extent_fits(*old(self)),
        ensures
            exists|t: Lattice|
                {
                    &&& same_tree(*old(self), t)
                    &&& laid_out(t)
                    &&& slots_stored(t)
                    &&& r == draw_fits(t, w0 as int, h0 as int)
                    &&& r ==> final(ops)@ == old(ops)@ + draw_ops(t, w0 as int, h0 as int, None)
                        && same_but_rect(t, *final(self)) && rects_recorded(
                        *final(self),
                        w0 as int,
                        h0 as int,
                    )
                    &&& !r ==> final(ops)@ == old(ops)@ && *final(self) == t
                },
    {
        let ghost t0 = *self;
        self.calc_box_height();
        let ghost t1 = *self;
        proof {
            lemma_extent_fits_same_tree(t0, t1);
        }
        self.calc_top_bottom();
        proof {
            lemma_same_tree_trans(t0, t1, *self);
            lemma_slots_stored_kept(t1, *self);
        }
        let ghost t = *self;
        if !self.fits_at(w0, h0) {
            return false;
        }
        self.draw_node(ops, w0, h0, None);
        true
    }
}

} // verus!
