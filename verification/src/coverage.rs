//! The coverage index: which world-plane regions were already requested.
//!
//! Rectangles live in an r-tree of the `rstar` crate, behind a few trusted
//! wrappers; everything proved about the index rests on their contracts.
//! The index answers `is_covered` exactly: a rectangle counts as covered
//! when every one of its points lies in some previously inserted rectangle.

use vstd::prelude::*;
use vstd::multiset::Multiset;
use crate::geom::WorldSpaceRect;
use crate::geom::covered_by;
use crate::geom::tree_key_in_range;
use rstar::RTree;
use rstar::primitives::Rectangle;

verus! {

/// An r-tree of `rstar` holding plain rectangles.  Verus cannot express the
/// trait bounds of `rstar::RTree` itself, so the tree sits in a field of
/// this opaque struct and is reached only through the trusted wrappers
/// below.
#[verifier::external_body]
pub struct RectTree {
    tree: RTree<Rectangle<[i64; 2]>>,
}

/// A stored rectangle as plain values, in the order
/// `(left, bottom, right, top)`.
pub open spec fn rect_key(r: WorldSpaceRect) -> (i64, i64, i64, i64) {
    (r.left, r.bottom, r.right, r.top)
}

pub open spec fn rect_of(k: (i64, i64, i64, i64)) -> WorldSpaceRect {
    WorldSpaceRect { left: k.0, bottom: k.1, right: k.2, top: k.3 }
}

/// The closed bounding boxes of the two keys touch or overlap.  This is the
/// intersection test of `rstar::AABB::intersects`, which compares corners
/// with `<=` on each axis.
pub open spec fn keys_closed_intersect(a: (i64, i64, i64, i64), b: (i64, i64, i64, i64)) -> bool {
    a.0 <= b.2 && a.1 <= b.3 && a.2 >= b.0 && a.3 >= b.1
}

/// What the r-tree holds, as a multiset of rectangle keys: the tree keeps
/// no order among its elements and may hold duplicates.
pub uninterp spec fn rect_tree_rects(t: RectTree) -> Multiset<(i64, i64, i64, i64)>;

/// Relies on `rstar::RTree::new`: it returns an empty tree.
#[verifier::external_body]
fn rect_tree_new() -> (t: RectTree)
    ensures
        rect_tree_rects(t) == Multiset::<(i64, i64, i64, i64)>::empty(),
{
    RectTree { tree: RTree::new() }
}

/// Relies on `rstar::RTree::insert`: it adds exactly the given element, and
/// on `Rectangle::from_corners`, which keeps the corners of a well-formed
/// rectangle as given (it normalizes per axis with min and max).
///
/// Insertion does 64-bit arithmetic on the stored coordinates — node
/// splitting multiplies spans into areas and sums several of them, and the
/// reinsertion pass squares center offsets — so the new rectangle and
/// everything already stored must be within `TREE_COORD_LIMIT`, which
/// keeps all of that arithmetic far from overflow.
#[verifier::external_body]
fn rect_tree_insert(t: &mut RectTree, r: &WorldSpaceRect)
    requires
        r.wf(),
        r.in_tree_range(),
        forall|k: (i64, i64, i64, i64)|
            rect_tree_rects(*old(t)).count(k) > 0 ==> #[trigger] tree_key_in_range(k),
    ensures
        rect_tree_rects(*final(t)) == rect_tree_rects(*old(t)).insert(rect_key(*r)),
{
    t.tree.insert(Rectangle::from_corners([r.left, r.bottom], [r.right, r.top]));
}

/// Relies on `rstar::RTree::locate_in_envelope_intersecting`: it yields
/// exactly the elements whose envelope intersects the given one, where
/// `AABB::intersects` compares corners with `<=` per axis (a closed test).
#[verifier::external_body]
fn rect_tree_intersecting(t: &RectTree, q: &WorldSpaceRect) -> (res: Vec<
    WorldSpaceRect,
>)
    requires
        q.wf(),
    ensures
        res@.map_values(|r: WorldSpaceRect| rect_key(r)).to_multiset() == rect_tree_rects(
            *t,
        ).filter(|k: (i64, i64, i64, i64)| keys_closed_intersect(k, rect_key(*q))),
{
    let envelope = rstar::AABB::from_corners([q.left, q.bottom], [q.right, q.top]);
    t.tree.locate_in_envelope_intersecting(&envelope).map(
        |r| WorldSpaceRect {
            left: r.lower()[0],
            bottom: r.lower()[1],
            right: r.upper()[0],
            top: r.upper()[1],
        },
    ).collect()
}

/// Some key of the multiset stands for a rectangle containing the point.
pub open spec fn ms_covered(ms: Multiset<(i64, i64, i64, i64)>, x: int, y: int) -> bool {
    exists|k: (i64, i64, i64, i64)| #[trigger] ms.count(k) > 0 && rect_of(k).contains(x, y)
}

/// Every point of `r` lies in some rectangle of the multiset.
pub open spec fn multiset_covers(ms: Multiset<(i64, i64, i64, i64)>, r: WorldSpaceRect) -> bool {
    forall|x: int, y: int| r.contains(x, y) ==> ms_covered(ms, x, y)
}

/// The index of previously requested world-plane rectangles.
pub struct SpatialIndex {
    tree: RectTree,
}

impl SpatialIndex {
    /// The rectangles held so far, as a multiset of keys.
    pub closed spec fn rects(self) -> Multiset<(i64, i64, i64, i64)> {
        rect_tree_rects(self.tree)
    }

    /// Every stored rectangle is well-formed and small enough for the
    /// index's 64-bit arithmetic.
    pub open spec fn wf(self) -> bool {
        forall|k: (i64, i64, i64, i64)| #[trigger] self.rects().count(k) > 0 ==> rect_of(k).wf()
            && tree_key_in_range(k)
    }

    /// `r` is fully inside the union of the stored rectangles.
    pub open spec fn covers(self, r: WorldSpaceRect) -> bool {
        multiset_covers(self.rects(), r)
    }

    pub fn new() -> (s: Self)
        ensures
            s.rects() == Multiset::<(i64, i64, i64, i64)>::empty(),
            s.wf(),
    {
        let s = SpatialIndex { tree: rect_tree_new() };
        proof {
            broadcast use vstd::multiset::group_multiset_axioms;

        }
        s
    }

    /// Record `rect` as requested.
    pub fn insert(&mut self, rect: WorldSpaceRect)
        requires
            old(self).wf(),
            rect.wf(),
            rect.in_tree_range(),
        ensures
            final(self).rects() == old(self).rects().insert(rect_key(rect)),
            final(self).wf(),
            final(self).covers(rect),
    {
        rect_tree_insert(&mut self.tree, &rect);
        proof {
            broadcast use vstd::multiset::group_multiset_axioms;

            assert forall|x: int, y: int| rect.contains(x, y) implies ms_covered(
                self.rects(),
                x,
                y,
            ) by {
                assert(self.rects().count(rect_key(rect)) > 0);
                assert(rect_of(rect_key(rect)).contains(x, y));
            }

            assert forall|k: (i64, i64, i64, i64)| #[trigger] self.rects().count(k) > 0 implies
                rect_of(k).wf() && tree_key_in_range(k) by {
                if k != rect_key(rect) {
                    assert(old(self).rects().count(k) > 0);
                }
            }
        }
    }

    /// Record every rectangle of `rects` as requested.
    pub fn insert_vec(&mut self, rects: Vec<WorldSpaceRect>)
        requires
            old(self).wf(),
            forall|i: int|
                0 <= i < rects@.len() ==> (#[trigger] rects@[i]).wf() && rects@[i].in_tree_range(),
        ensures
            final(self).rects() == old(self).rects().add(
                rects@.map_values(|r: WorldSpaceRect| rect_key(r)).to_multiset(),
            ),
            final(self).wf(),
    {
        broadcast use vstd::multiset::group_multiset_axioms;
        broadcast use vstd::seq_lib::group_to_multiset_ensures;

        let mut i: usize = 0;
        while i < rects.len()
            invariant
                old(self).wf(),
                i <= rects@.len(),
                forall|j: int|
                    0 <= j < rects@.len() ==> (#[trigger] rects@[j]).wf()
                        && rects@[j].in_tree_range(),
                self.rects() == old(self).rects().add(
                    rects@.take(i as int).map_values(|r: WorldSpaceRect| rect_key(r)).to_multiset(),
                ),
                self.wf(),
            decreases rects@.len() - i,
        {
            self.insert(rects[i]);
            proof {
                broadcast use vstd::multiset::group_multiset_axioms;
                broadcast use vstd::seq_lib::group_to_multiset_ensures;

                let kk = rect_key(rects@[i as int]);
                let tki = rects@.take(i as int).map_values(|r: WorldSpaceRect| rect_key(r));
                assert(rects@.take(i + 1).map_values(|r: WorldSpaceRect| rect_key(r)) =~= tki.push(
                    kk,
                ));
                assert(tki.push(kk).to_multiset() =~= tki.to_multiset().insert(kk));
                assert(old(self).rects().add(tki.to_multiset()).insert(kk) =~= old(
                    self,
                ).rects().add(tki.to_multiset().insert(kk)));
                assert(self.rects() =~= old(self).rects().add(
                    rects@.take(i + 1).map_values(|r: WorldSpaceRect| rect_key(r)).to_multiset(),
                ));
            }
            i = i + 1;
        }
        proof {
            assert(rects@.take(rects@.len() as int) =~= rects@);
        }
    }

    /// All stored rectangles whose closed bounding box touches `rect`.
    pub fn query(&self, rect: &WorldSpaceRect) -> (res: Vec<WorldSpaceRect>)
        requires
            self.wf(),
            rect.wf(),
        ensures
            res@.map_values(|r: WorldSpaceRect| rect_key(r)).to_multiset() == self.rects().filter(
                |k: (i64, i64, i64, i64)| keys_closed_intersect(k, rect_key(*rect)),
            ),
            forall|i: int| 0 <= i < res@.len() ==> (#[trigger] res@[i]).wf(),
    {
        broadcast use vstd::multiset::group_multiset_axioms;
        broadcast use vstd::seq_lib::group_to_multiset_ensures;

        let res = rect_tree_intersecting(&self.tree, rect);
        proof {
            let keys = res@.map_values(|r: WorldSpaceRect| rect_key(r));
            assert forall|i: int| 0 <= i < res@.len() implies (#[trigger] res@[i]).wf() by {
                assert(keys[i] == rect_key(res@[i]));
                assert(keys.contains(keys[i]));
                assert(keys.to_multiset().count(keys[i]) > 0);
                assert(self.rects().count(keys[i]) > 0);
                assert(rect_of(keys[i]).wf());
                assert(rect_of(rect_key(res@[i])) == res@[i]);
            }
        }
        res
    }

    /// What is left of `rect` after subtracting every stored rectangle:
    /// the pieces are pairwise disjoint and tile exactly the points of
    /// `rect` that the index does not cover yet.
    pub fn split(&self, rect: &WorldSpaceRect) -> (pieces: Vec<WorldSpaceRect>)
        requires
            self.wf(),
            rect.wf(),
        ensures
            forall|x: int, y: int| #![trigger covered_by(pieces@, x, y)]
                covered_by(pieces@, x, y) <==> (rect.contains(x, y) && !ms_covered(
                    self.rects(),
                    x,
                    y,
                )),
            forall|i: int|
                0 <= i < pieces@.len() ==> (#[trigger] pieces@[i]).nonempty() && pieces@[i].wf(),
            forall|i: int, j: int, x: int, y: int|
                0 <= i < j < pieces@.len() ==> !((#[trigger] pieces@[i].contains(x, y))
                    && (#[trigger] pieces@[j].contains(x, y))),
    {
        broadcast use vstd::multiset::group_multiset_axioms;
        broadcast use vstd::seq_lib::group_to_multiset_ensures;

        let near = self.query(rect);
        let pieces = rect.split(&near);
        proof {
            let keys = near@.map_values(|r: WorldSpaceRect| rect_key(r));
            assert forall|x: int, y: int|
                rect.contains(x, y) implies (covered_by(near@, x, y) == ms_covered(
                self.rects(),
                x,
                y,
            )) by {
                if covered_by(near@, x, y) {
                    let i = choose|i: int|
                        0 <= i < near@.len() && (#[trigger] near@[i]).contains(x, y);
                    assert(keys[i] == rect_key(near@[i]));
                    assert(keys.contains(keys[i]));
                    assert(keys.to_multiset().count(keys[i]) > 0);
                    assert(self.rects().count(keys[i]) > 0);
                    assert(rect_of(keys[i]).contains(x, y));
                    assert(ms_covered(self.rects(), x, y));
                }
                if ms_covered(self.rects(), x, y) {
                    let k = choose|k: (i64, i64, i64, i64)|
                        #[trigger] self.rects().count(k) > 0 && rect_of(k).contains(x, y);
                    assert(keys_closed_intersect(k, rect_key(*rect)));
                    assert(keys.to_multiset().count(k) > 0);
                    assert(keys.contains(k));
                    let i = choose|i: int| 0 <= i < keys.len() && keys[i] == k;
                    assert(keys[i] == rect_key(near@[i]));
                    assert(near@[i] == rect_of(k));
                    assert(near@[i].contains(x, y));
                    assert(covered_by(near@, x, y));
                }
            }
        }
        pieces
    }

    /// Exact coverage test: true when every point of `rect` already lies in
    /// some previously inserted rectangle.  An empty `rect` is covered
    /// trivially.
    pub fn is_covered(&self, rect: &WorldSpaceRect) -> (res: bool)
        requires
            self.wf(),
            rect.wf(),
        ensures
            res == self.covers(*rect),
    {
        let pieces = self.split(rect);
        if pieces.is_empty() {
            proof {
                assert forall|x: int, y: int| rect.contains(x, y) implies ms_covered(
                    self.rects(),
                    x,
                    y,
                ) by {
                    assert(!covered_by(pieces@, x, y));
                }
            }
            true
        } else {
            proof {
                let p = pieces@[0];
                assert(p.contains(p.left as int, p.bottom as int));
                assert(covered_by(pieces@, p.left as int, p.bottom as int));
                assert(rect.contains(p.left as int, p.bottom as int) && !ms_covered(
                    self.rects(),
                    p.left as int,
                    p.bottom as int,
                ));
            }
            false
        }
    }
}

/// Law: inserting the same rectangle twice covers exactly what inserting it
/// once covers, whatever the query rectangle.
pub proof fn lemma_coverage_idempotent(
    ms: Multiset<(i64, i64, i64, i64)>,
    k: (i64, i64, i64, i64),
    r: WorldSpaceRect,
)
    ensures
        multiset_covers(ms.insert(k).insert(k), r) == multiset_covers(ms.insert(k), r),
{
    broadcast use vstd::multiset::group_multiset_axioms;

    assert forall|x: int, y: int|
        ms_covered(ms.insert(k).insert(k), x, y) == ms_covered(ms.insert(k), x, y) by {
        if ms_covered(ms.insert(k).insert(k), x, y) {
            let w = choose|w: (i64, i64, i64, i64)|
                #[trigger] ms.insert(k).insert(k).count(w) > 0 && rect_of(w).contains(x, y);
            assert(ms.insert(k).count(w) > 0);
        }
        if ms_covered(ms.insert(k), x, y) {
            let w = choose|w: (i64, i64, i64, i64)|
                #[trigger] ms.insert(k).count(w) > 0 && rect_of(w).contains(x, y);
            assert(ms.insert(k).insert(k).count(w) > 0);
        }
    }
}

/// Law: an index into which nothing was ever inserted covers no
/// rectangle that has a point.  (A rectangle without points is covered
/// vacuously, by any index.)
pub proof fn lemma_empty_covers_nothing(r: WorldSpaceRect)
    requires
        r.nonempty(),
    ensures
        !multiset_covers(Multiset::<(i64, i64, i64, i64)>::empty(), r),
{
    broadcast use vstd::multiset::group_multiset_axioms;

    assert(r.contains(r.left as int, r.bottom as int));
    assert(!ms_covered(Multiset::<(i64, i64, i64, i64)>::empty(), r.left as int, r.bottom as int));
}

/// Law: coverage is monotone.  Once a rectangle is covered, inserting more
/// rectangles can never uncover it.
pub proof fn lemma_coverage_monotonic(
    ms: Multiset<(i64, i64, i64, i64)>,
    k: (i64, i64, i64, i64),
    r: WorldSpaceRect,
)
    requires
        multiset_covers(ms, r),
    ensures
        multiset_covers(ms.insert(k), r),
{
    broadcast use vstd::multiset::group_multiset_axioms;

    assert forall|x: int, y: int| r.contains(x, y) implies ms_covered(ms.insert(k), x, y) by {
        assert(ms_covered(ms, x, y));
        let w = choose|w: (i64, i64, i64, i64)|
            #[trigger] ms.count(w) > 0 && rect_of(w).contains(x, y);
        assert(ms.insert(k).count(w) > 0);
    }
}

} // verus!
