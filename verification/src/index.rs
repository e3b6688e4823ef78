//! The spatial index: a quadtree over whole-unit cells that answers box queries.

use vstd::prelude::*;
use vstd::arithmetic::power2::{lemma2_to64, lemma_pow2_strictly_increases, lemma_pow2_unfold, pow2};
use quadtree_rs::area::AreaBuilder;
use quadtree_rs::point::Point;
use quadtree_rs::Quadtree;

verus! {

/// Deepest tree whose side, `2^30`, still fits the 32-bit coordinates.
pub const MAX_INDEX_DEPTH: usize = 30;

/// An entry of the index: the cell `(x, y)` and the value stored there.
pub type Entry = (i32, i32, i32);

/// The quadtree of `quadtree_rs`, with 32-bit coordinates and values.
#[verifier::external_body]
pub struct Tree {
    inner: Quadtree<i32, i32>,
}

/// The entries a tree holds, in the order in which they were inserted since it was last
/// emptied.
pub uninterp spec fn tree_entries(tree: Tree) -> Seq<(i32, i32, i32)>;

/// The depth a tree was made with: it covers the cells `[0, 2^depth)` on both axes.
pub uninterp spec fn tree_depth(tree: Tree) -> nat;

/// The entries that a query for the box anchored at `(ax, ay)`, `w` wide and `h` high, hands
/// out of a tree of the given depth and entries, in the order in which the tree is walked.
pub uninterp spec fn query_order(
    entries: Seq<(i32, i32, i32)>,
    depth: nat,
    ax: int,
    ay: int,
    w: int,
    h: int,
) -> Seq<(i32, i32, i32)>;

/// The cell lies in the square that a tree of the given depth covers.
pub open spec fn in_tree(x: int, y: int, depth: nat) -> bool {
    0 <= x < pow2(depth) && 0 <= y < pow2(depth)
}

/// The entry's cell lies in the box anchored at `(ax, ay)`, `w` wide and `h` high. The box
/// holds its lower and left edge and not its upper and right one.
pub open spec fn in_box(e: Entry, ax: int, ay: int, w: int, h: int) -> bool {
    ax <= e.0 < ax + w && ay <= e.1 < ay + h
}

/// `found` holds the entries of `entries` that lie in the box, each as often as `entries`
/// does, and nothing else.
pub open spec fn found_in_box(found: Seq<Entry>, entries: Seq<Entry>, ax: int, ay: int, w: int, h: int) -> bool {
    forall|e: Entry| #[trigger]
        found.to_multiset().count(e) == if in_box(e, ax, ay, w, h) {
            entries.to_multiset().count(e)
        } else {
            0
        }
}

/// `Quadtree::new`: an empty tree of the given depth. The tree's side is computed as a
/// 32-bit power of two, so the depth may not exceed 30.
#[verifier::external_body]
fn tree_new(depth: usize) -> (tree: Tree)
    requires
        depth <= MAX_INDEX_DEPTH,
    ensures
        tree_entries(tree) == Seq::<Entry>::empty(),
        tree_depth(tree) == depth,
{
    Tree { inner: Quadtree::new(depth) }
}

/// `Quadtree::reset`: empties the tree and keeps its depth.
#[verifier::external_body]
fn tree_reset(tree: &mut Tree)
    ensures
        tree_entries(*final(tree)) == Seq::<Entry>::empty(),
        tree_depth(*final(tree)) == tree_depth(*old(tree)),
{
    tree.inner.reset()
}

/// `Quadtree::insert_pt`: stores `value` at the cell `(x, y)` and returns a handle, or
/// stores nothing and returns `None` where the cell lies outside the tree. The cell's far
/// edges, `x + 1` and `y + 1`, are computed in 32 bits.
#[verifier::external_body]
fn tree_insert(tree: &mut Tree, x: i32, y: i32, value: i32) -> (handle: Option<u64>)
    requires
        x < i32::MAX,
        y < i32::MAX,
    ensures
        handle is Some <==> in_tree(x as int, y as int, tree_depth(*old(tree))),
        tree_entries(*final(tree)) == (if handle is Some {
            tree_entries(*old(tree)).push((x, y, value))
        } else {
            tree_entries(*old(tree))
        }),
        tree_depth(*final(tree)) == tree_depth(*old(tree)),
{
    tree.inner.insert_pt(Point { x, y }, value)
}

/// `Quadtree::query` on the box that `AreaBuilder` makes of the anchor and the dimensions:
/// every entry whose cell lies in the box comes out once, and no other. The order is the one
/// in which the tree is walked, which depends on the entries, the depth and the box alone.
/// The builder refuses a dimension that is not positive, and the box's far edges are
/// computed in 32 bits.
#[verifier::external_body]
fn tree_query(tree: &Tree, ax: i32, ay: i32, w: i32, h: i32) -> (found: Vec<Entry>)
    requires
        w > 0,
        h > 0,
        ax + w <= i32::MAX,
        ay + h <= i32::MAX,
    ensures
        found@ == query_order(tree_entries(*tree), tree_depth(*tree), ax as int, ay as int, w as int, h as int),
        found_in_box(found@, tree_entries(*tree), ax as int, ay as int, w as int, h as int),
{
    let region = AreaBuilder::default().anchor(Point { x: ax, y: ay }).dimensions((w, h)).build().unwrap();
    tree.inner.query(region).map(|e| (e.anchor().x, e.anchor().y, *e.value_ref())).collect()
}

/// The part of the span `[a, a + len)` that lies in `[0, side)`, as its start and its length;
/// the length is zero or negative where the two do not meet.
pub open spec fn clipped(a: int, len: int, side: int) -> (int, int) {
    let lo = if a < 0 { 0 } else { a };
    let hi = if a + len > side { side } else { a + len };
    (lo, hi - lo)
}

/// What a query for a box hands out of an index with the given entries and depth: nothing
/// where the box is empty or misses the tree, else the tree's answer for the part of the box
/// that lies on the tree.
pub open spec fn lookup(entries: Seq<Entry>, depth: nat, ax: int, ay: int, w: int, h: int) -> Seq<Entry> {
    let (cx, cw) = clipped(ax, w, pow2(depth) as int);
    let (cy, ch) = clipped(ay, h, pow2(depth) as int);
    if w <= 0 || h <= 0 || cw <= 0 || ch <= 0 {
        Seq::<Entry>::empty()
    } else {
        query_order(entries, depth, cx, cy, cw, ch)
    }
}

/// Every entry lies in the square that a tree of the given depth covers.
pub open spec fn all_in_tree(entries: Seq<Entry>, depth: nat) -> bool {
    forall|k: int| 0 <= k < entries.len() ==> in_tree(#[trigger] entries[k].0 as int, entries[k].1 as int, depth)
}

/// An index over the cells `[0, 2^depth)` on both axes.
pub struct SpatialIndex {
    tree: Tree,
    depth: usize,
    side: i64,
}

/// What an index is made of.
pub struct IndexView {
    /// The entries, in the order in which they were inserted.
    pub entries: Seq<Entry>,
    /// The depth the index was made with.
    pub depth: nat,
}

impl View for SpatialIndex {
    type V = IndexView;

    closed spec fn view(&self) -> IndexView {
        IndexView { entries: tree_entries(self.tree), depth: tree_depth(self.tree) }
    }
}

impl SpatialIndex {
    /// The invariant of an index: its depth is in range and every entry lies on the tree.
    pub closed spec fn wf(&self) -> bool {
        &&& self.depth == tree_depth(self.tree)
        &&& self.depth <= MAX_INDEX_DEPTH
        &&& self.side == pow2(self.depth as nat)
        &&& all_in_tree(tree_entries(self.tree), self.depth as nat)
    }

    /// An empty index of the given depth.
    pub fn new(depth: usize) -> (index: SpatialIndex)
        requires
            depth <= MAX_INDEX_DEPTH,
        ensures
            index.wf(),
            index@.entries == Seq::<Entry>::empty(),
            index@.depth == depth,
    {
        let mut side: i64 = 1;
        let mut d: usize = 0;
        proof {
            lemma2_to64();
        }
        while d < depth
            invariant
                d <= depth <= MAX_INDEX_DEPTH,
                side == pow2(d as nat),
                side <= 0x4000_0000,
            decreases depth - d,
        {
            proof {
                lemma2_to64();
                lemma_pow2_unfold((d + 1) as nat);
                if d + 1 < MAX_INDEX_DEPTH {
                    lemma_pow2_strictly_increases((d + 1) as nat, MAX_INDEX_DEPTH as nat);
                }
            }
            side = side * 2;
            d = d + 1;
        }
        SpatialIndex { tree: tree_new(depth), depth, side }
    }

    /// The depth the index was made with.
    pub fn depth(&self) -> (depth: usize)
        requires
            self.wf(),
        ensures
            depth == self@.depth,
    {
        self.depth
    }

    /// Discards every entry.
    pub fn reset(&mut self)
        requires
            old(self).wf(),
        ensures
            final(self).wf(),
            final(self)@.entries == Seq::<Entry>::empty(),
            final(self)@.depth == old(self)@.depth,
    {
        tree_reset(&mut self.tree);
    }

    /// Stores `value` at the cell `(x, y)` if the cell lies on the tree, and says whether it
    /// did.
    pub fn insert(&mut self, x: i32, y: i32, value: i32) -> (stored: bool)
        requires
            old(self).wf(),
        ensures
            final(self).wf(),
            stored == in_tree(x as int, y as int, old(self)@.depth),
            final(self)@.entries == (if stored {
                old(self)@.entries.push((x, y, value))
            } else {
                old(self)@.entries
            }),
            final(self)@.depth == old(self)@.depth,
    {
        proof {
            lemma2_to64();
            if self.depth < MAX_INDEX_DEPTH {
                lemma_pow2_strictly_increases(self.depth as nat, MAX_INDEX_DEPTH as nat);
            }
        }
        if x == i32::MAX || y == i32::MAX {
            return false;
        }
        let handle = tree_insert(&mut self.tree, x, y, value);
        handle.is_some()
    }

    /// The entries whose cell lies in the box anchored at `(ax, ay)`, `w` wide and `h` high.
    /// A box that is empty or misses the tree finds nothing.
    pub fn query(&self, ax: i32, ay: i32, w: i32, h: i32) -> (found: Vec<Entry>)
        requires
            self.wf(),
        ensures
            found@ == lookup(self@.entries, self@.depth, ax as int, ay as int, w as int, h as int),
            found_in_box(found@, self@.entries, ax as int, ay as int, w as int, h as int),
    {
        if w <= 0 || h <= 0 {
            let found: Vec<Entry> = Vec::new();
            proof {
                lemma_nothing_found(found@, self@.entries, self@.depth, ax as int, ay as int, w as int, h as int);
            }
            return found;
        }
        let lo_x: i64 = if ax < 0 { 0 } else { ax as i64 };
        let lo_y: i64 = if ay < 0 { 0 } else { ay as i64 };
        let hi_x: i64 = if ax as i64 + w as i64 > self.side { self.side } else { ax as i64 + w as i64 };
        let hi_y: i64 = if ay as i64 + h as i64 > self.side { self.side } else { ay as i64 + h as i64 };
        if lo_x >= hi_x || lo_y >= hi_y {
            let found: Vec<Entry> = Vec::new();
            proof {
                lemma_nothing_found(found@, self@.entries, self@.depth, ax as int, ay as int, w as int, h as int);
            }
            return found;
        }
        proof {
            lemma2_to64();
            if self.depth < MAX_INDEX_DEPTH {
                lemma_pow2_strictly_increases(self.depth as nat, MAX_INDEX_DEPTH as nat);
            }
        }
        let found = tree_query(&self.tree, lo_x as i32, lo_y as i32, (hi_x - lo_x) as i32, (hi_y - lo_y) as i32);
        proof {
            lemma_clipped_found(
                found@,
                self@.entries,
                self@.depth,
                ax as int,
                ay as int,
                w as int,
                h as int,
            );
        }
        found
    }
}

/// A box that is empty or misses the tree holds no entry of the tree.
proof fn lemma_nothing_found(found: Seq<Entry>, entries: Seq<Entry>, depth: nat, ax: int, ay: int, w: int, h: int)
    requires
        found.len() == 0,
        all_in_tree(entries, depth),
        w <= 0 || h <= 0 || clipped(ax, w, pow2(depth) as int).1 <= 0 || clipped(ay, h, pow2(depth) as int).1 <= 0,
    ensures
        found_in_box(found, entries, ax, ay, w, h),
{
    broadcast use vstd::seq_lib::to_multiset_contains;

    assert forall|e: Entry| #[trigger]
        found.to_multiset().count(e) == if in_box(e, ax, ay, w, h) {
            entries.to_multiset().count(e)
        } else {
            0
        } by {
        assert(!found.contains(e));
        if in_box(e, ax, ay, w, h) && entries.contains(e) {
            let k = choose|k: int| 0 <= k < entries.len() && entries[k] == e;
            assert(in_tree(entries[k].0 as int, entries[k].1 as int, depth));
        }
    }
}

/// What the part of a box that lies on the tree holds of the tree's entries, the whole box
/// holds.
proof fn lemma_clipped_found(found: Seq<Entry>, entries: Seq<Entry>, depth: nat, ax: int, ay: int, w: int, h: int)
    requires
        all_in_tree(entries, depth),
        found_in_box(
            found,
            entries,
            clipped(ax, w, pow2(depth) as int).0,
            clipped(ay, h, pow2(depth) as int).0,
            clipped(ax, w, pow2(depth) as int).1,
            clipped(ay, h, pow2(depth) as int).1,
        ),
    ensures
        found_in_box(found, entries, ax, ay, w, h),
{
    broadcast use vstd::seq_lib::to_multiset_contains;

    let (cx, cw) = clipped(ax, w, pow2(depth) as int);
    let (cy, ch) = clipped(ay, h, pow2(depth) as int);
    assert forall|e: Entry| #[trigger]
        found.to_multiset().count(e) == if in_box(e, ax, ay, w, h) {
            entries.to_multiset().count(e)
        } else {
            0
        } by {
        if entries.contains(e) {
            let k = choose|k: int| 0 <= k < entries.len() && entries[k] == e;
            assert(in_tree(entries[k].0 as int, entries[k].1 as int, depth));
            assert(in_box(e, ax, ay, w, h) == in_box(e, cx, cy, cw, ch));
        }
    }
}

} // verus!
