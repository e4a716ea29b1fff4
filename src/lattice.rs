use vstd::prelude::*;

use crate::rect::Rect;

verus! {

/// Height of one node's box, in pixels; also the slot count of a leaf.
pub const B_HEIGHT: usize = 40;

/// Vertical gap between neighbouring sibling subtrees; also the slot gap.
pub const G_HEIGHT: usize = 10;

/// A node of the tree: a text label, its computed geometry and its ordered children.
#[derive(Debug)]
pub struct Lattice {
    pub text: String,
    /// Bounds of the node's box, recorded when the node is drawn.
    pub rect: Option<Rect>,
    /// Slot count of the subtree (box-count pass).
    pub sub_height: usize,
    /// Vertical span of the node and its subtree (extent pass).
    pub h: usize,
    /// Distance from the node's vertical centre to the top of its highest child subtree.
    pub u: usize,
    /// Distance from the node's vertical centre to the bottom of its lowest child subtree.
    pub d: usize,
    /// Measured size of the label's text, in pixels; the box is sized from it.
    pub image_width: usize,
    pub image_height: usize,
    /// Children, top to bottom.
    pub sub_list: Vec<Lattice>,
}

/// The node and `b` hold the same labels, boxes, text sizes and structure;
/// the computed layout fields may differ.
pub open spec fn same_tree(a: Lattice, b: Lattice) -> bool
    decreases a,
{
    &&& a.text@ == b.text@
    &&& a.rect == b.rect
    &&& a.image_width == b.image_width
    &&& a.image_height == b.image_height
    &&& a.sub_list@.len() == b.sub_list@.len()
    &&& forall|i: int|
        0 <= i < a.sub_list@.len() ==> same_tree(#[trigger] a.sub_list@[i], b.sub_list@[i])
}

/// Extent `(h, u, d)` of a subtree, as the layout defines it.
pub open spec fn extent(n: Lattice) -> (int, int, int)
    decreases n, n.sub_list@.len(),
{
    let kids = n.sub_list@;
    let c = kids.len();
    if c == 0 {
        (B_HEIGHT as int, 0, 0)
    } else if c == 1 {
        let e = extent(kids[0]);
        (B_HEIGHT as int, e.1, e.2)
    } else {
        let first = extent(kids[0]);
        let last = extent(kids[c - 1]);
        let h = c * B_HEIGHT + (c - 1) * G_HEIGHT + first.2 + last.1 + middle_sum(kids, c - 1);
        (h, h / 2 - B_HEIGHT / 2 + first.1, h / 2 - B_HEIGHT / 2 + last.2)
    }
}

/// Sum of `u + d` over the children of index `1 .. j`.
pub open spec fn middle_sum(kids: Seq<Lattice>, j: int) -> int
    decreases kids, j,
{
    if j <= 1 || j > kids.len() {
        0
    } else {
        middle_sum(kids, j - 1) + extent(kids[j - 1]).1 + extent(kids[j - 1]).2
    }
}

/// Every extent in the subtree fits in a `usize`.
pub open spec fn extent_fits(n: Lattice) -> bool
    decreases n,
{
    &&& extent(n).0 <= usize::MAX
    &&& extent(n).1 <= usize::MAX
    &&& extent(n).2 <= usize::MAX
    &&& forall|i: int| 0 <= i < n.sub_list@.len() ==> extent_fits(#[trigger] n.sub_list@[i])
}

/// Every node of the subtree holds its extent.
pub open spec fn laid_out(n: Lattice) -> bool
    decreases n,
{
    &&& n.h == extent(n).0
    &&& n.u == extent(n).1
    &&& n.d == extent(n).2
    &&& forall|i: int| 0 <= i < n.sub_list@.len() ==> laid_out(#[trigger] n.sub_list@[i])
}

proof fn lemma_extent_bounds(n: Lattice)
    ensures
        extent(n).0 >= B_HEIGHT,
        extent(n).1 >= 0,
        extent(n).2 >= 0,
    decreases n, n.sub_list@.len(),
{
    let kids = n.sub_list@;
    let c = kids.len();
    if c >= 1 {
        lemma_extent_bounds(kids[0]);
        lemma_extent_bounds(kids[c - 1]);
        lemma_middle_sum_mono(kids, c - 1, c - 1);
    }
}

proof fn lemma_middle_sum_mono(kids: Seq<Lattice>, j: int, m: int)
    requires
        j <= m <= kids.len(),
    ensures
        0 <= middle_sum(kids, j) <= middle_sum(kids, m),
    decreases kids, m,
{
    if m > j && m > 1 {
        lemma_middle_sum_mono(kids, j, m - 1);
        lemma_extent_bounds(kids[m - 1]);
    } else if m == j && j > 1 {
        lemma_middle_sum_mono(kids, j - 1, j - 1);
        lemma_extent_bounds(kids[j - 1]);
    }
}

proof fn lemma_middle_sum_eq(ka: Seq<Lattice>, kb: Seq<Lattice>, j: int)
    requires
        ka.len() == kb.len(),
        forall|k: int| 0 <= k < ka.len() ==> #[trigger] extent(ka[k]) == extent(kb[k]),
    ensures
        middle_sum(ka, j) == middle_sum(kb, j),
    decreases j,
{
    if j > 1 && j <= ka.len() {
        lemma_middle_sum_eq(ka, kb, j - 1);
        assert(extent(ka[j - 1]) == extent(kb[j - 1]));
    }
}

/// The extent depends on the shape of the tree alone.
proof fn lemma_extent_same_tree(a: Lattice, b: Lattice)
    requires
        same_tree(a, b),
    ensures
        extent(a) == extent(b),
    decreases a,
{
    let ka = a.sub_list@;
    let kb = b.sub_list@;
    assert forall|k: int| 0 <= k < ka.len() implies #[trigger] extent(ka[k]) == extent(kb[k]) by {
        assert(same_tree(a.sub_list@[k], b.sub_list@[k]));
        lemma_extent_same_tree(a.sub_list@[k], b.sub_list@[k]);
    }
    if ka.len() >= 1 {
        assert(extent(ka[0]) == extent(kb[0]));
        assert(extent(ka[ka.len() - 1]) == extent(kb[ka.len() - 1]));
        lemma_middle_sum_eq(ka, kb, ka.len() - 1);
    }
}


/// Slot count of a subtree: a leaf counts one box height, a single child passes
/// its count through, and two or more children add one gap between neighbours.
pub open spec fn slots(n: Lattice) -> int
    decreases n, n.sub_list@.len(),
{
    let kids = n.sub_list@;
    let c = kids.len();
    if c == 0 {
        B_HEIGHT as int
    } else if c == 1 {
        slots(kids[0])
    } else {
        slot_sum(kids, c as int) + (c - 1) * G_HEIGHT
    }
}

/// Sum of the slot counts of the children of index `0 .. j`.
pub open spec fn slot_sum(kids: Seq<Lattice>, j: int) -> int
    decreases kids, j,
{
    if j <= 0 || j > kids.len() {
        0
    } else {
        slot_sum(kids, j - 1) + slots(kids[j - 1])
    }
}

/// Every slot count in the subtree fits in a `usize`.
pub open spec fn slots_fit(n: Lattice) -> bool
    decreases n,
{
    &&& slots(n) <= usize::MAX
    &&& forall|i: int| 0 <= i < n.sub_list@.len() ==> slots_fit(#[trigger] n.sub_list@[i])
}

/// Every node of the subtree holds its slot count.
pub open spec fn slots_stored(n: Lattice) -> bool
    decreases n,
{
    &&& n.sub_height == slots(n)
    &&& forall|i: int| 0 <= i < n.sub_list@.len() ==> slots_stored(#[trigger] n.sub_list@[i])
}

proof fn lemma_slots_bounds(n: Lattice)
    ensures
        slots(n) >= B_HEIGHT,
    decreases n, n.sub_list@.len(),
{
    let kids = n.sub_list@;
    let c = kids.len();
    if c == 1 {
        lemma_slots_bounds(kids[0]);
    } else if c >= 2 {
        lemma_slot_sum_mono(kids, 1, c as int);
        lemma_slots_bounds(kids[0]);
        assert(slot_sum(kids, 0) == 0);
        assert(slot_sum(kids, 1) == slots(kids[0]));
    }
}

proof fn lemma_slot_sum_mono(kids: Seq<Lattice>, j: int, m: int)
    requires
        0 <= j <= m <= kids.len(),
    ensures
        0 <= slot_sum(kids, j) <= slot_sum(kids, m),
    decreases kids, m,
{
    if m > j {
        lemma_slot_sum_mono(kids, j, m - 1);
        lemma_slots_bounds(kids[m - 1]);
    } else if j > 0 {
        lemma_slot_sum_mono(kids, j - 1, j - 1);
        lemma_slots_bounds(kids[j - 1]);
    }
}

proof fn lemma_slot_sum_eq(ka: Seq<Lattice>, kb: Seq<Lattice>, j: int)
    requires
        ka.len() == kb.len(),
        forall|k: int| 0 <= k < ka.len() ==> #[trigger] slots(ka[k]) == slots(kb[k]),
    ensures
        slot_sum(ka, j) == slot_sum(kb, j),
    decreases j,
{
    if j > 0 && j <= ka.len() {
        lemma_slot_sum_eq(ka, kb, j - 1);
        assert(slots(ka[j - 1]) == slots(kb[j - 1]));
    }
}

/// The slot count depends on the shape of the tree alone.
proof fn lemma_slots_same_tree(a: Lattice, b: Lattice)
    requires
        same_tree(a, b),
    ensures
        slots(a) == slots(b),
    decreases a,
{
    let ka = a.sub_list@;
    let kb = b.sub_list@;
    assert forall|k: int| 0 <= k < ka.len() implies #[trigger] slots(ka[k]) == slots(kb[k]) by {
        assert(same_tree(a.sub_list@[k], b.sub_list@[k]));
        lemma_slots_same_tree(a.sub_list@[k], b.sub_list@[k]);
    }
    if ka.len() >= 1 {
        assert(slots(ka[0]) == slots(kb[0]));
        lemma_slot_sum_eq(ka, kb, ka.len() as int);
    }
}

proof fn lemma_same_tree_refl(a: Lattice)
    ensures
        same_tree(a, a),
    decreases a,
{
    assert forall|k: int| 0 <= k < a.sub_list@.len() implies same_tree(
        #[trigger] a.sub_list@[k],
        a.sub_list@[k],
    ) by {
        lemma_same_tree_refl(a.sub_list@[k]);
    }
}

pub(crate) proof fn lemma_same_tree_trans(a: Lattice, b: Lattice, c: Lattice)
    requires
        same_tree(a, b),
        same_tree(b, c),
    ensures
        same_tree(a, c),
    decreases a,
{
    assert forall|k: int| 0 <= k < a.sub_list@.len() implies same_tree(
        #[trigger] a.sub_list@[k],
        c.sub_list@[k],
    ) by {
        assert(same_tree(a.sub_list@[k], b.sub_list@[k]));
        assert(same_tree(b.sub_list@[k], c.sub_list@[k]));
        lemma_same_tree_trans(a.sub_list@[k], b.sub_list@[k], c.sub_list@[k]);
    }
}

pub(crate) proof fn lemma_extent_fits_same_tree(a: Lattice, b: Lattice)
    requires
        same_tree(a, b),
        extent_fits(a),
    ensures
        extent_fits(b),
    decreases a,
{
    lemma_extent_same_tree(a, b);
    assert forall|k: int| 0 <= k < b.sub_list@.len() implies extent_fits(
        #[trigger] b.sub_list@[k],
    ) by {
        assert(same_tree(a.sub_list@[k], b.sub_list@[k]));
        assert(extent_fits(a.sub_list@[k]));
        lemma_extent_fits_same_tree(a.sub_list@[k], b.sub_list@[k]);
    }
}

/// Two trees of the same shape hold the same slot count at every node.
pub open spec fn same_slots(a: Lattice, b: Lattice) -> bool
    decreases a,
{
    &&& a.sub_height == b.sub_height
    &&& a.sub_list@.len() == b.sub_list@.len()
    &&& forall|i: int|
        0 <= i < a.sub_list@.len() ==> same_slots(#[trigger] a.sub_list@[i], b.sub_list@[i])
}

/// Slot counts stay stored when only other fields change.
pub(crate) proof fn lemma_slots_stored_kept(a: Lattice, b: Lattice)
    requires
        slots_stored(a),
        same_tree(a, b),
        same_slots(a, b),
    ensures
        slots_stored(b),
    decreases a,
{
    lemma_slots_same_tree(a, b);
    assert forall|k: int| 0 <= k < b.sub_list@.len() implies slots_stored(
        #[trigger] b.sub_list@[k],
    ) by {
        assert(same_tree(a.sub_list@[k], b.sub_list@[k]));
        assert(same_slots(a.sub_list@[k], b.sub_list@[k]));
        assert(slots_stored(a.sub_list@[k]));
        lemma_slots_stored_kept(a.sub_list@[k], b.sub_list@[k]);
    }
}

/// Two trees of the same shape hold the same extent `(h, u, d)` at every node.
pub open spec fn same_extents(a: Lattice, b: Lattice) -> bool
    decreases a,
{
    &&& a.h == b.h
    &&& a.u == b.u
    &&& a.d == b.d
    &&& a.sub_list@.len() == b.sub_list@.len()
    &&& forall|i: int|
        0 <= i < a.sub_list@.len() ==> same_extents(#[trigger] a.sub_list@[i], b.sub_list@[i])
}

/// Sum of the stored `u + d` over the children of index `1 .. j`.
pub open spec fn stored_middle_sum(kids: Seq<Lattice>, j: int) -> int
    decreases j,
{
    if j <= 1 || j > kids.len() {
        0
    } else {
        stored_middle_sum(kids, j - 1) + kids[j - 1].u + kids[j - 1].d
    }
}

proof fn lemma_stored_middle_sum(kids: Seq<Lattice>, j: int)
    requires
        forall|k: int| 0 <= k < kids.len() ==> laid_out(#[trigger] kids[k]),
    ensures
        stored_middle_sum(kids, j) == middle_sum(kids, j),
    decreases j,
{
    if j > 1 && j <= kids.len() {
        lemma_stored_middle_sum(kids, j - 1);
        assert(laid_out(kids[j - 1]));
    }
}

/// After the extent pass, at every node: a leaf spans one box with `u = d = 0`;
/// a node with one child spans one box, whatever the child's span, and takes the
/// child's `u` and `d`; a node with `c >= 2` children spans `c` boxes, `c - 1`
/// gaps, the first child's `d`, the last child's `u` and the `u + d` of every
/// child between them, and its `u` and `d` are half its span less half a box
/// plus the first child's `u` and the last child's `d`.
pub proof fn lemma_laid_out_rules(n: Lattice)
    requires
        laid_out(n),
    ensures
        n.sub_list@.len() == 0 ==> n.h == B_HEIGHT && n.u == 0 && n.d == 0,
        n.sub_list@.len() == 1 ==> n.h == B_HEIGHT && n.u == n.sub_list@[0].u && n.d
            == n.sub_list@[0].d,
        n.sub_list@.len() >= 2 ==> {
            let kids = n.sub_list@;
            let c = kids.len();
            &&& n.h == c * B_HEIGHT + (c - 1) * G_HEIGHT + kids[0].d + kids[c - 1].u
                + stored_middle_sum(kids, c - 1)
            &&& n.u == n.h / 2 - B_HEIGHT / 2 + kids[0].u
            &&& n.d == n.h / 2 - B_HEIGHT / 2 + kids[c - 1].d
        },
{
    let kids = n.sub_list@;
    let c = kids.len();
    assert(forall|k: int| 0 <= k < c ==> laid_out(#[trigger] kids[k]));
    if c >= 1 {
        assert(laid_out(kids[0]));
        assert(laid_out(kids[c - 1]));
        lemma_stored_middle_sum(kids, c - 1);
    }
}

/// Running the extent pass on a tree, and then again on its result, leaves
/// every node with the same `(h, u, d)` as the first run: the pass is idempotent.
/// `once` and `twice` are described by what the pass guarantees of its result.
pub proof fn lemma_extent_pass_idempotent(tree: Lattice, once: Lattice, twice: Lattice)
    requires
        same_tree(tree, once),
        laid_out(once),
        same_tree(once, twice),
        laid_out(twice),
    ensures
        same_extents(once, twice),
    decreases once,
{
    lemma_extent_same_tree(once, twice);
    assert forall|k: int| 0 <= k < once.sub_list@.len() implies same_extents(
        #[trigger] once.sub_list@[k],
        twice.sub_list@[k],
    ) by {
        assert(same_tree(once.sub_list@[k], twice.sub_list@[k]));
        assert(laid_out(once.sub_list@[k]));
        assert(laid_out(twice.sub_list@[k]));
        lemma_same_tree_refl(once.sub_list@[k]);
        lemma_extent_pass_idempotent(once.sub_list@[k], once.sub_list@[k], twice.sub_list@[k]);
    }
}

/// A node with exactly two children, both leaves, spans two boxes and one gap,
/// and its centre sits half a box height plus half a gap from each child's centre.
pub proof fn lemma_two_leaves_symmetric(n: Lattice)
    requires
        n.sub_list@.len() == 2,
        n.sub_list@[0].sub_list@.len() == 0,
        n.sub_list@[1].sub_list@.len() == 0,
    ensures
        extent(n).0 == 2 * B_HEIGHT + G_HEIGHT,
        extent(n).1 == (B_HEIGHT + G_HEIGHT) / 2,
        extent(n).2 == (B_HEIGHT + G_HEIGHT) / 2,
{
    assert(extent(n.sub_list@[0]) == (40int, 0int, 0int));
    assert(extent(n.sub_list@[1]) == (40int, 0int, 0int));
    assert(middle_sum(n.sub_list@, 1) == 0);
    let h = 2 * B_HEIGHT + G_HEIGHT + extent(n.sub_list@[0]).2 + extent(n.sub_list@[1]).1
        + middle_sum(n.sub_list@, 1);
    assert(h == 90);
    assert(extent(n).0 == h);
    assert(h / 2 - B_HEIGHT / 2 == 25);
}


impl Lattice {
    /// A node with the given label, no children and no layout yet.
    pub fn new(text: String) -> (r: Self)
        ensures
            r.text@ == text@,
            r.rect.is_none(),
            r.sub_height == 0,
            r.h == 0,
            r.u == 0,
            r.d == 0,
            r.image_width == 0,
            r.image_height == 0,
            r.sub_list@.len() == 0,
    {
        Lattice {
            text,
            rect: None,
            sub_height: 0,
            h: 0,
            u: 0,
            d: 0,
            image_width: 0,
            image_height: 0,
            sub_list: Vec::new(),
        }
    }

    /// Appends `next` as the last child and returns its index.
    pub fn add_sub(&mut self, next: Lattice) -> (r: usize)
        ensures
            r == old(self).sub_list@.len(),
            final(self).sub_list@ == old(self).sub_list@.push(next),
            final(self).text == old(self).text,
            final(self).rect == old(self).rect,
            final(self).sub_height == old(self).sub_height,
            final(self).h == old(self).h,
            final(self).u == old(self).u,
            final(self).d == old(self).d,
            final(self).image_width == old(self).image_width,
            final(self).image_height == old(self).image_height,
    {
        let count = self.sub_list.len();
        self.sub_list.push(next);
        count
    }

    /// Appends a new leaf labelled `text` as the last child and returns its index.
    pub fn add_sub_list(&mut self, text: String) -> (r: usize)
        ensures
            r == old(self).sub_list@.len(),
            final(self).sub_list@.len() == old(self).sub_list@.len() + 1,
            final(self).sub_list@.subrange(0, r as int) == old(self).sub_list@,
            final(self).sub_list@[r as int].text@ == text@,
            final(self).sub_list@[r as int].rect.is_none(),
            final(self).sub_list@[r as int].sub_height == 0,
            final(self).sub_list@[r as int].h == 0,
            final(self).sub_list@[r as int].u == 0,
            final(self).sub_list@[r as int].d == 0,
            final(self).sub_list@[r as int].image_width == 0,
            final(self).sub_list@[r as int].image_height == 0,
            final(self).sub_list@[r as int].sub_list@.len() == 0,
            final(self).text == old(self).text,
            final(self).rect == old(self).rect,
            final(self).sub_height == old(self).sub_height,
            final(self).h == old(self).h,
            final(self).u == old(self).u,
            final(self).d == old(self).d,
            final(self).image_width == old(self).image_width,
            final(self).image_height == old(self).image_height,
    {
        let sn = Lattice::new(text);
        let r = self.add_sub(sn);
        assert(final(self).sub_list@.subrange(0, r as int) =~= old(self).sub_list@);
        r
    }

    /// Box-count pass: stores on every node of the subtree its slot count and
    /// returns the node's count.
    #[verifier::loop_isolation(false)]
    pub fn calc_box_height(&mut self) -> (r: usize)
        requires
            slots_fit(*old(self)),
        ensures
            same_tree(*old(self), *final(self)),
            same_extents(*old(self), *final(self)),
            slots_stored(*final(self)),
            r == final(self).sub_height,
            r == slots(*old(self)),
        decreases *old(self),
    {
        let count = self.sub_list.len();
        if count == 0 {
            self.sub_height = B_HEIGHT;
            return B_HEIGHT;
        }
        let ghost before = *self;
        proof {
            lemma_slots_bounds(before);
            if count >= 2 {
                lemma_slot_sum_mono(before.sub_list@, 0, count as int);
            }
        }
        let mut total: usize = 0;
        let mut i: usize = 0;
        while i < count
            invariant
                0 <= i <= count,
                count == self.sub_list.len(),
                count == before.sub_list@.len(),
                slots_fit(before),
                self.h == before.h,
                self.u == before.u,
                self.d == before.d,
                self.text == before.text,
                self.rect == before.rect,
                self.image_width == before.image_width,
                self.image_height == before.image_height,
                forall|k: int|
                    0 <= k < i ==> slots_stored(#[trigger] self.sub_list@[k]) && same_tree(
                        before.sub_list@[k],
                        self.sub_list@[k],
                    ) && same_extents(before.sub_list@[k], self.sub_list@[k]),
                forall|k: int| i <= k < count ==> #[trigger] self.sub_list@[k] == before.sub_list@[k],
                count >= 2 ==> total == slot_sum(before.sub_list@, i as int),
            decreases count - i,
        {
            assert(slots_fit(before.sub_list@[i as int]));
            assert(decreases_to!(before => before.sub_list@[i as int]));
            let c = self.sub_list[i].calc_box_height();
            if count >= 2 {
                proof {
                    lemma_slot_sum_mono(before.sub_list@, i + 1, count as int);
                }
                total = total + c;
            }
            i += 1;
        }
        proof {
            assert forall|k: int| 0 <= k < count implies #[trigger] slots(self.sub_list@[k])
                == slots(before.sub_list@[k]) by {
                assert(same_tree(before.sub_list@[k], self.sub_list@[k]));
                lemma_slots_same_tree(before.sub_list@[k], self.sub_list@[k]);
            }
            assert(same_tree(before, *self));
            lemma_slots_same_tree(before, *self);
        }
        if count == 1 {
            assert(slots_stored(self.sub_list@[0]));
            self.sub_height = self.sub_list[0].sub_height;
        } else {
            assert(slots(before) == slot_sum(before.sub_list@, count as int) + (count - 1)
                * G_HEIGHT);
            self.sub_height = total + (count - 1) * G_HEIGHT;
        }
        proof {
            assert(same_tree(before, *self));
            lemma_slots_same_tree(before, *self);
        }
        self.sub_height
    }

    /// The node's extent `(h, u, d)` when every extent in the subtree fits a
    /// `usize`, else `None`. Reads no stored layout field.
    #[verifier::loop_isolation(false)]
    pub fn extent_checked(&self) -> (r: Option<(usize, usize, usize)>)
        ensures
            r.is_some() == extent_fits(*self),
            r.is_some() ==> r.unwrap().0 == extent(*self).0 && r.unwrap().1 == extent(*self).1
                && r.unwrap().2 == extent(*self).2,
        decreases *self,
    {
        let count = self.sub_list.len();
        let ghost kids = self.sub_list@;
        proof {
            lemma_extent_bounds(*self);
        }
        if count == 0 {
            return Some((B_HEIGHT, 0, 0));
        }
        let mut exts: Vec<(usize, usize, usize)> = Vec::new();
        let mut i: usize = 0;
        while i < count
            invariant
                0 <= i <= count,
                count == kids.len(),
                exts@.len() == i,
                forall|k: int|
                    0 <= k < i ==> extent_fits(#[trigger] kids[k]) && exts@[k].0 == extent(kids[k]).0
                        && exts@[k].1 == extent(kids[k]).1 && exts@[k].2 == extent(kids[k]).2,
            decreases count - i,
        {
            assert(decreases_to!(*self => self.sub_list@[i as int]));
            match self.sub_list[i].extent_checked() {
                Some(e) => exts.push(e),
                None => {
                    assert(!extent_fits(kids[i as int]));
                    return None;
                },
            }
            i += 1;
        }
        assert(forall|k: int| 0 <= k < count ==> extent_fits(#[trigger] self.sub_list@[k]));
        if count == 1 {
            return Some((B_HEIGHT, exts[0].1, exts[0].2));
        }
        proof {
            lemma_middle_sum_mono(kids, 1, count - 1);
        }
        let mut mid: u128 = 0;
        let mut j: usize = 1;
        while j < count - 1
            invariant
                1 <= j <= count - 1,
                mid == middle_sum(kids, j as int),
                mid <= usize::MAX,
            decreases count - j,
        {
            proof {
                lemma_middle_sum_mono(kids, j + 1, count - 1);
            }
            mid = mid + exts[j].1 as u128 + exts[j].2 as u128;
            if mid > usize::MAX as u128 {
                proof {
                    lemma_extent_bounds(kids[0]);
                    lemma_extent_bounds(kids[count - 1]);
                }
                return None;
            }
            j += 1;
        }
        let h: u128 = count as u128 * B_HEIGHT as u128 + (count as u128 - 1) * G_HEIGHT as u128
            + exts[0].2 as u128 + exts[count - 1].1 as u128 + mid;
        let u: u128 = h / 2 - B_HEIGHT as u128 / 2 + exts[0].1 as u128;
        let d: u128 = h / 2 - B_HEIGHT as u128 / 2 + exts[count - 1].2 as u128;
        if h > usize::MAX as u128 || u > usize::MAX as u128 || d > usize::MAX as u128 {
            return None;
        }
        Some((h as usize, u as usize, d as usize))
    }

    /// The node's slot count when every slot count in the subtree fits a
    /// `usize`, else `None`. Reads no stored layout field.
    #[verifier::loop_isolation(false)]
    pub fn slots_checked(&self) -> (r: Option<usize>)
        ensures
            r.is_some() == slots_fit(*self),
            r.is_some() ==> r.unwrap() == slots(*self),
        decreases *self,
    {
        let count = self.sub_list.len();
        let ghost kids = self.sub_list@;
        proof {
            lemma_slots_bounds(*self);
        }
        if count == 0 {
            return Some(B_HEIGHT);
        }
        let mut total: u128 = 0;
        let mut first: usize = 0;
        let mut i: usize = 0;
        while i < count
            invariant
                0 <= i <= count,
                count == kids.len(),
                total == slot_sum(kids, i as int),
                total <= usize::MAX,
                i > 0 ==> first == slots(kids[0]),
                forall|k: int| 0 <= k < i ==> slots_fit(#[trigger] kids[k]),
            decreases count - i,
        {
            assert(decreases_to!(*self => self.sub_list@[i as int]));
            match self.sub_list[i].slots_checked() {
                Some(c) => {
                    if i == 0 {
                        first = c;
                    }
                    total = total + c as u128;
                },
                None => {
                    assert(!slots_fit(kids[i as int]));
                    return None;
                },
            }
            if count >= 2 && total > usize::MAX as u128 {
                proof {
                    lemma_slot_sum_mono(kids, i + 1, count as int);
                }
                return None;
            }
            i += 1;
        }
        assert(forall|k: int| 0 <= k < count ==> slots_fit(#[trigger] self.sub_list@[k]));
        if count == 1 {
            return Some(first);
        }
        let all: u128 = total + (count as u128 - 1) * G_HEIGHT as u128;
        if all > usize::MAX as u128 {
            return None;
        }
        Some(all as usize)
    }

    /// Extent pass: stores on every node of the subtree its extent `(h, u, d)`,
    /// children before parents, and returns the node's `h`.
    #[verifier::loop_isolation(false)]
    pub fn calc_top_bottom(&mut self) -> (r: usize)
        requires
            extent_fits(*old(self)),
        ensures
            same_tree(*old(self), *final(self)),
            same_slots(*old(self), *final(self)),
            laid_out(*final(self)),
            r == final(self).h,
            r == extent(*old(self)).0,
        decreases *old(self),
    {
        let count = self.sub_list.len();
        if count == 0 {
            self.h = B_HEIGHT;
            self.u = 0;
            self.d = 0;
            return self.h;
        }
        let ghost before = *self;
        let mut i: usize = 0;
        while i < count
            invariant
                0 <= i <= count,
                count == self.sub_list@.len(),
                count == before.sub_list@.len(),
                extent_fits(before),
                self.sub_height == before.sub_height,
                self.text == before.text,
                self.rect == before.rect,
                self.image_width == before.image_width,
                self.image_height == before.image_height,
                forall|k: int|
                    0 <= k < i ==> laid_out(#[trigger] self.sub_list@[k]) && same_tree(
                        before.sub_list@[k],
                        self.sub_list@[k],
                    ) && same_slots(before.sub_list@[k], self.sub_list@[k]),
                forall|k: int| i <= k < count ==> #[trigger] self.sub_list@[k] == before.sub_list@[k],
            decreases count - i,
        {
            assert(extent_fits(before.sub_list@[i as int]));
            assert(decreases_to!(before => before.sub_list@[i as int]));
            self.sub_list[i].calc_top_bottom();
            i += 1;
        }
        proof {
            assert forall|k: int| 0 <= k < count implies #[trigger] extent(
                self.sub_list@[k],
            ) == extent(before.sub_list@[k]) by {
                assert(same_tree(before.sub_list@[k], self.sub_list@[k]));
                lemma_extent_same_tree(before.sub_list@[k], self.sub_list@[k]);
            }
            assert(same_tree(before, *self));
            lemma_extent_same_tree(before, *self);
            lemma_extent_bounds(*self);
        }
        if count == 1 {
            self.h = B_HEIGHT;
            self.u = self.sub_list[0].u;
            self.d = self.sub_list[0].d;
        } else {
            let ghost kids = self.sub_list@;
            let mut mid: usize = 0;
            let mut j: usize = 1;
            proof {
                lemma_middle_sum_mono(kids, 1, count - 1);
            }
            while j < count - 1
                invariant
                    1 <= j <= count - 1,
                    count >= 2,
                    kids == self.sub_list@,
                    count == kids.len(),
                    forall|k: int| 0 <= k < count ==> #[trigger] laid_out(kids[k]),
                    mid == middle_sum(kids, j as int),
                    middle_sum(kids, count - 1) <= usize::MAX,
                decreases count - j,
            {
                assert(laid_out(kids[j as int]));
                proof {
                    lemma_middle_sum_mono(kids, j + 1, count - 1);
                }
                mid = mid + self.sub_list[j].u + self.sub_list[j].d;
                j += 1;
            }
            assert(laid_out(kids[0]));
            assert(laid_out(kids[count - 1]));
            let h = count * B_HEIGHT + (count - 1) * G_HEIGHT + self.sub_list[0].d
                + self.sub_list[count - 1].u + mid;
            self.h = h;
            self.u = h / 2 - B_HEIGHT / 2 + self.sub_list[0].u;
            self.d = h / 2 - B_HEIGHT / 2 + self.sub_list[count - 1].d;
        }
        proof {
            assert(same_tree(before, *self));
            lemma_extent_same_tree(before, *self);
        }
        self.h
    }
}

} // verus!
