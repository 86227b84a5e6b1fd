//! Axis-aligned rectangles on the world plane.
//!
//! A rectangle stands for the half-open box `[left, right) x [bottom, top)`
//! of integer fixed-point coordinates.  The half-open reading makes the
//! geometry exact: two rectangles that merely share an edge overlap nowhere,
//! and the area of a tiling is the sum of the areas of its tiles.

use vstd::prelude::*;

verus! {

/// The largest coordinate magnitude the spatial indexes accept.  The
/// backing r-tree multiplies coordinate spans into areas and sums a
/// handful of such areas in 64 bits while it inserts; with every
/// coordinate within this bound, spans stay below `2^29`, areas below
/// `2^58`, and those sums stay far inside `i64`.  The bound still admits
/// every geographic coordinate in degrees scaled by a million (up to
/// 180 000 000).
pub const TREE_COORD_LIMIT: i64 = 0x1000_0000;

/// The coordinate is small enough for the spatial indexes.
pub open spec fn tree_coord(v: i64) -> bool {
    -TREE_COORD_LIMIT <= v <= TREE_COORD_LIMIT
}

/// All four corner coordinates of a stored key are small enough for the
/// spatial indexes.
pub open spec fn tree_key_in_range(k: (i64, i64, i64, i64)) -> bool {
    tree_coord(k.0) && tree_coord(k.1) && tree_coord(k.2) && tree_coord(k.3)
}

/// An axis-aligned rectangle of the world plane, in fixed-point units.
/// It covers the half-open box `[left, right) x [bottom, top)`.
#[derive(Clone, Copy, Debug, PartialEq, Eq, Structural)]
pub struct WorldSpaceRect {
    pub left: i64,
    pub right: i64,
    pub bottom: i64,
    pub top: i64,
}

pub open spec fn imax(a: int, b: int) -> int {
    if a < b {
        b
    } else {
        a
    }
}

pub open spec fn imin(a: int, b: int) -> int {
    if a < b {
        a
    } else {
        b
    }
}

/// Some rectangle of the sequence contains the point.
pub open spec fn covered_by(rs: Seq<WorldSpaceRect>, x: int, y: int) -> bool {
    exists|i: int| 0 <= i < rs.len() && (#[trigger] rs[i]).contains(x, y)
}

/// Total area of a sequence of rectangles, counting overlaps twice.
pub open spec fn sum_areas(rs: Seq<WorldSpaceRect>) -> int
    decreases rs.len(),
{
    if rs.len() == 0 {
        0
    } else {
        rs[0].area() + sum_areas(rs.drop_first())
    }
}

/// Appending a rectangle extends the covered set by exactly its points.
pub broadcast proof fn lemma_covered_push(rs: Seq<WorldSpaceRect>, r: WorldSpaceRect, x: int, y: int)
    ensures
        #[trigger] covered_by(rs.push(r), x, y) <==> (covered_by(rs, x, y) || r.contains(x, y)),
{
    if covered_by(rs, x, y) {
        let i = choose|i: int| 0 <= i < rs.len() && (#[trigger] rs[i]).contains(x, y);
        assert(rs.push(r)[i].contains(x, y));
    }
    if r.contains(x, y) {
        assert(rs.push(r)[rs.len() as int].contains(x, y));
    }
    if covered_by(rs.push(r), x, y) {
        let i = choose|i: int| 0 <= i < rs.push(r).len() && (#[trigger] rs.push(r)[i]).contains(x, y);
        if i < rs.len() {
            assert(rs[i].contains(x, y));
        }
    }
}

/// Concatenation covers a point exactly when one of the halves does.
pub broadcast proof fn lemma_covered_append(a: Seq<WorldSpaceRect>, b: Seq<WorldSpaceRect>, x: int, y: int)
    ensures
        #[trigger] covered_by(a + b, x, y) <==> (covered_by(a, x, y) || covered_by(b, x, y)),
{
    if covered_by(a, x, y) {
        let i = choose|i: int| 0 <= i < a.len() && (#[trigger] a[i]).contains(x, y);
        assert((a + b)[i].contains(x, y));
    }
    if covered_by(b, x, y) {
        let i = choose|i: int| 0 <= i < b.len() && (#[trigger] b[i]).contains(x, y);
        assert((a + b)[a.len() + i].contains(x, y));
    }
    if covered_by(a + b, x, y) {
        let i = choose|i: int| 0 <= i < (a + b).len() && (#[trigger] (a + b)[i]).contains(x, y);
        if i < a.len() {
            assert(a[i].contains(x, y));
        } else {
            assert(b[i - a.len()].contains(x, y));
        }
    }
}

/// Appending a rectangle adds exactly its area to the total.
pub broadcast proof fn lemma_sum_areas_push(rs: Seq<WorldSpaceRect>, r: WorldSpaceRect)
    ensures
        #[trigger] sum_areas(rs.push(r)) == sum_areas(rs) + r.area(),
    decreases rs.len(),
{
    if rs.len() == 0 {
        assert(rs.push(r).drop_first() =~= Seq::<WorldSpaceRect>::empty());
        assert(rs.push(r)[0] == r);
        assert(sum_areas(rs.push(r)) == r.area() + sum_areas(rs.push(r).drop_first()));
    } else {
        assert(rs.push(r).drop_first() =~= rs.drop_first().push(r));
        lemma_sum_areas_push(rs.drop_first(), r);
        assert(sum_areas(rs.push(r)) == rs[0].area() + sum_areas(rs.drop_first().push(r)));
    }
}

impl WorldSpaceRect {
    /// Well-formed: the edges are ordered.  The rectangle may still be empty.
    pub open spec fn wf(self) -> bool {
        self.left <= self.right && self.bottom <= self.top
    }

    /// The rectangle contains at least one point.
    pub open spec fn nonempty(self) -> bool {
        self.left < self.right && self.bottom < self.top
    }

    /// Every edge coordinate is small enough for the spatial indexes.
    pub open spec fn in_tree_range(self) -> bool {
        tree_coord(self.left) && tree_coord(self.right) && tree_coord(self.bottom) && tree_coord(
            self.top,
        )
    }

    /// The point `(x, y)` lies in the half-open box.
    pub open spec fn contains(self, x: int, y: int) -> bool {
        self.left <= x < self.right && self.bottom <= y < self.top
    }

    pub open spec fn area(self) -> int {
        if self.nonempty() {
            (self.right - self.left) * (self.top - self.bottom)
        } else {
            0
        }
    }

    /// The two half-open boxes share at least one point.
    pub open spec fn overlaps_spec(self, other: WorldSpaceRect) -> bool {
        imax(self.left as int, other.left as int) < imin(self.right as int, other.right as int)
            && imax(self.bottom as int, other.bottom as int) < imin(
            self.top as int,
            other.top as int,
        )
    }

    /// Area of the intersection of the two boxes.
    pub open spec fn overlap_area(self, other: WorldSpaceRect) -> int {
        let l = imax(self.left as int, other.left as int);
        let r = imin(self.right as int, other.right as int);
        let b = imax(self.bottom as int, other.bottom as int);
        let t = imin(self.top as int, other.top as int);
        if l < r && b < t {
            (r - l) * (t - b)
        } else {
            0
        }
    }

    pub fn overlaps(&self, other: &WorldSpaceRect) -> (r: bool)
        ensures
            r == self.overlaps_spec(*other),
    {
        let l: i64 = if self.left < other.left {
            other.left
        } else {
            self.left
        };
        let r_: i64 = if other.right < self.right {
            other.right
        } else {
            self.right
        };
        let b: i64 = if self.bottom < other.bottom {
            other.bottom
        } else {
            self.bottom
        };
        let t: i64 = if other.top < self.top {
            other.top
        } else {
            self.top
        };
        l < r_ && b < t
    }

    /// Subtract `other` from `self`: the returned rectangles tile exactly the
    /// points of `self` that are not in `other`.
    ///
    /// The result has at most four pieces.  If the two rectangles do not
    /// overlap, the result is `self` unchanged; if `other` covers `self`, the
    /// result is empty.  The pieces are pairwise disjoint and nonempty, and
    /// the area of `self` equals the area of the pieces plus the area of the
    /// intersection, so the subtraction loses no area and counts none twice.
    pub fn split_single(&self, other: &WorldSpaceRect) -> (pieces: Vec<WorldSpaceRect>)
        requires
            self.wf(),
            other.wf(),
        ensures
            forall|x: int, y: int| #![trigger covered_by(pieces@, x, y)]
                covered_by(pieces@, x, y) <==> (self.contains(x, y) && !other.contains(x, y)),
            forall|i: int|
                0 <= i < pieces@.len() ==> (#[trigger] pieces@[i]).nonempty() && pieces@[i].wf(),
            forall|i: int, j: int, x: int, y: int|
                0 <= i < j < pieces@.len() ==> !((#[trigger] pieces@[i].contains(x, y))
                    && (#[trigger] pieces@[j].contains(x, y))),
            self.area() == sum_areas(pieces@) + self.overlap_area(*other),
            self.nonempty() && !self.overlaps_spec(*other) ==> pieces@.len() == 1 && pieces@[0]
                == *self,
            !self.nonempty() ==> pieces@.len() == 0,
            pieces@.len() <= 4,
    {
        broadcast use lemma_covered_push, lemma_sum_areas_push;

        let mut pieces: Vec<WorldSpaceRect> = Vec::new();
        if self.left >= self.right || self.bottom >= self.top {
            return pieces;
        }
        if !self.overlaps(other) {
            pieces.push(*self);
            return pieces;
        }
        let il: i64 = if self.left < other.left {
            other.left
        } else {
            self.left
        };
        let ir: i64 = if other.right < self.right {
            other.right
        } else {
            self.right
        };
        if self.left < other.left {
            pieces.push(
                WorldSpaceRect {
                    left: self.left,
                    right: other.left,
                    bottom: self.bottom,
                    top: self.top,
                },
            );
        }
        if other.right < self.right {
            pieces.push(
                WorldSpaceRect {
                    left: other.right,
                    right: self.right,
                    bottom: self.bottom,
                    top: self.top,
                },
            );
        }
        if self.bottom < other.bottom {
            pieces.push(
                WorldSpaceRect { left: il, right: ir, bottom: self.bottom, top: other.bottom },
            );
        }
        if other.top < self.top {
            pieces.push(WorldSpaceRect { left: il, right: ir, bottom: other.top, top: self.top });
        }
        proof {
            let l = self.left as int;
            let r = self.right as int;
            let b = self.bottom as int;
            let t = self.top as int;
            let ili = il as int;
            let iri = ir as int;
            let ib = imax(b, other.bottom as int);
            let it = imin(t, other.top as int);
            assert((r - l) * (t - b) == (ili - l) * (t - b) + (r - iri) * (t - b) + (iri - ili) * (
            ib - b) + (iri - ili) * (t - it) + (iri - ili) * (it - ib)) by (nonlinear_arith);
            if l == ili {
                assert((ili - l) * (t - b) == 0) by (nonlinear_arith)
                    requires
                        l == ili,
                ;
            }
            if r == iri {
                assert((r - iri) * (t - b) == 0) by (nonlinear_arith)
                    requires
                        r == iri,
                ;
            }
            if b == ib {
                assert((iri - ili) * (ib - b) == 0) by (nonlinear_arith)
                    requires
                        b == ib,
                ;
            }
            if t == it {
                assert((iri - ili) * (t - it) == 0) by (nonlinear_arith)
                    requires
                        t == it,
                ;
            }
            assert(self.overlap_area(*other) == (iri - ili) * (it - ib));
        }
        pieces
    }

    /// Subtract every rectangle of `rects` from `self`.  The result tiles
    /// exactly the points of `self` that none of `rects` covers; in
    /// particular it is empty exactly when `rects` covers all of `self`.
    #[verifier::loop_isolation(false)]
    pub fn split(&self, rects: &Vec<WorldSpaceRect>) -> (pieces: Vec<WorldSpaceRect>)
        requires
            self.wf(),
            forall|i: int| 0 <= i < rects@.len() ==> (#[trigger] rects@[i]).wf(),
        ensures
            forall|x: int, y: int| #![trigger covered_by(pieces@, x, y)]
                covered_by(pieces@, x, y) <==> (self.contains(x, y) && !covered_by(rects@, x, y)),
            forall|i: int|
                0 <= i < pieces@.len() ==> (#[trigger] pieces@[i]).nonempty() && pieces@[i].wf(),
            forall|i: int, j: int, x: int, y: int|
                0 <= i < j < pieces@.len() ==> !((#[trigger] pieces@[i].contains(x, y))
                    && (#[trigger] pieces@[j].contains(x, y))),
            self.nonempty() && rects@.len() == 0 ==> pieces@.len() == 1 && pieces@[0] == *self,
            !self.nonempty() ==> pieces@.len() == 0,
    {
        broadcast use lemma_covered_push, lemma_covered_append;

        let mut remainder: Vec<WorldSpaceRect> = Vec::new();
        if self.left >= self.right || self.bottom >= self.top {
            return remainder;
        }
        remainder.push(*self);
        proof {
            assert(remainder@ =~= Seq::<WorldSpaceRect>::empty().push(*self));
            assert(remainder@ =~= seq![*self]);
            assert(rects@.take(0) =~= Seq::<WorldSpaceRect>::empty());
        }
        let mut k: usize = 0;
        while k < rects.len()
            invariant
                k <= rects@.len(),
                self.nonempty(),
                forall|i: int| 0 <= i < rects@.len() ==> (#[trigger] rects@[i]).wf(),
                forall|x: int, y: int| #![trigger covered_by(remainder@, x, y)]
                    covered_by(remainder@, x, y) <==> (self.contains(x, y) && !covered_by(
                        rects@.take(k as int),
                        x,
                        y,
                    )),
                forall|i: int|
                    0 <= i < remainder@.len() ==> (#[trigger] remainder@[i]).nonempty()
                        && remainder@[i].wf(),
                forall|a: int, b: int, x: int, y: int|
                    0 <= a < b < remainder@.len() ==> !((#[trigger] remainder@[a].contains(x, y))
                        && (#[trigger] remainder@[b].contains(x, y))),
                k == 0 ==> remainder@ == seq![*self],
            decreases rects@.len() - k,
        {
            broadcast use lemma_covered_push, lemma_covered_append;

            let ghost old_remainder = remainder@;
            let cur = rects[k];
            let mut next: Vec<WorldSpaceRect> = Vec::new();
            let mut j: usize = 0;
            proof {
                assert(next@ =~= Seq::<WorldSpaceRect>::empty());
                assert(old_remainder.take(0) =~= Seq::<WorldSpaceRect>::empty());
            }
            while j < remainder.len()
                invariant
                    j <= remainder@.len(),
                    remainder@ == old_remainder,
                    cur.wf(),
                    forall|i: int|
                        0 <= i < remainder@.len() ==> (#[trigger] remainder@[i]).nonempty()
                            && remainder@[i].wf(),
                    forall|x: int, y: int| #![trigger covered_by(next@, x, y)]
                        covered_by(next@, x, y) <==> (covered_by(
                            old_remainder.take(j as int),
                            x,
                            y,
                        ) && !cur.contains(x, y)),
                    forall|i: int|
                        0 <= i < next@.len() ==> (#[trigger] next@[i]).nonempty() && next@[i].wf(),
                    forall|a: int, b: int, x: int, y: int|
                        0 <= a < b < old_remainder.len() ==> !((
                        #[trigger] old_remainder[a].contains(x, y)) && (
                        #[trigger] old_remainder[b].contains(x, y))),
                    forall|a: int, b: int, x: int, y: int|
                        0 <= a < b < next@.len() ==> !((#[trigger] next@[a].contains(x, y)) && (
                        #[trigger] next@[b].contains(x, y))),
                decreases remainder@.len() - j,
            {
                broadcast use lemma_covered_push, lemma_covered_append;

                let mut split_pieces = remainder[j].split_single(&cur);
                let ghost prev_next = next@;
                let ghost sp = split_pieces@;
                next.append(&mut split_pieces);
                proof {
                    assert(next@ == prev_next + sp);
                    assert(old_remainder.take(j + 1) =~= old_remainder.take(j as int).push(
                        old_remainder[j as int],
                    ));
                    assert forall|x: int, y: int|
                        covered_by(next@, x, y) <==> (covered_by(
                            old_remainder.take(j + 1),
                            x,
                            y,
                        ) && !cur.contains(x, y)) by {
                        assert(covered_by(prev_next + sp, x, y) == (covered_by(prev_next, x, y)
                            || covered_by(sp, x, y)));
                        assert(covered_by(prev_next, x, y) == (covered_by(
                            old_remainder.take(j as int),
                            x,
                            y,
                        ) && !cur.contains(x, y)));
                        assert(covered_by(sp, x, y) == (old_remainder[j as int].contains(x, y)
                            && !cur.contains(x, y)));
                        let tk = old_remainder.take(j as int);
                        assert(covered_by(tk.push(old_remainder[j as int]), x, y) == (covered_by(
                            tk,
                            x,
                            y,
                        ) || old_remainder[j as int].contains(x, y)));
                    }
                    assert forall|a: int, b: int, x: int, y: int|
                        0 <= a < b < next@.len() implies !((#[trigger] next@[a].contains(x, y))
                            && (#[trigger] next@[b].contains(x, y))) by {
                        if next@[a].contains(x, y) && next@[b].contains(x, y) {
                            if b < prev_next.len() {
                                assert(next@[a] == prev_next[a]);
                                assert(next@[b] == prev_next[b]);
                            } else if a >= prev_next.len() {
                                assert(next@[a] == sp[a - prev_next.len()]);
                                assert(next@[b] == sp[b - prev_next.len()]);
                                assert(sp[a - prev_next.len()].contains(x, y));
                                assert(sp[b - prev_next.len()].contains(x, y));
                            } else {
                                assert(next@[a] == prev_next[a]);
                                assert(next@[b] == sp[b - prev_next.len()]);
                                assert(covered_by(prev_next, x, y));
                                assert(covered_by(old_remainder.take(j as int), x, y));
                                let t = choose|t: int|
                                    0 <= t < old_remainder.take(j as int).len() && (
                                    #[trigger] old_remainder.take(j as int)[t]).contains(x, y);
                                assert(old_remainder[t].contains(x, y));
                                assert(covered_by(sp, x, y));
                                assert(old_remainder[j as int].contains(x, y));
                                assert(t < j);
                            }
                        }
                    }
                }
                j = j + 1;
            }
            proof {
                assert(old_remainder.take(old_remainder.len() as int) =~= old_remainder);
                assert(rects@.take(k + 1) =~= rects@.take(k as int).push(rects@[k as int]));
                assert forall|x: int, y: int|
                    covered_by(next@, x, y) <==> (self.contains(x, y) && !covered_by(
                        rects@.take(k + 1),
                        x,
                        y,
                    )) by {
                    let tk = rects@.take(k as int);
                    assert(covered_by(tk.push(rects@[k as int]), x, y) == (covered_by(tk, x, y)
                        || rects@[k as int].contains(x, y)));
                    assert(covered_by(next@, x, y) == (covered_by(
                        old_remainder.take(old_remainder.len() as int),
                        x,
                        y,
                    ) && !cur.contains(x, y)));
                    assert(covered_by(old_remainder, x, y) == (self.contains(x, y) && !covered_by(
                        tk,
                        x,
                        y,
                    )));
                }
            }
            remainder = next;
            k = k + 1;
        }
        proof {
            assert(rects@.take(rects@.len() as int) =~= rects@);
        }
        remainder
    }
}


/// A point of the world plane, in fixed-point units.
#[derive(Clone, Copy, Debug, PartialEq, Eq, Structural)]
pub struct WorldPoint {
    pub x: i64,
    pub y: i64,
}

/// A geographic bounding box, in degrees scaled by a million.
/// Longitude runs west to east (the x axis), latitude south to north (y).
#[derive(Clone, Copy, Debug, PartialEq, Eq, Structural)]
pub struct GeoRect {
    pub south: i64,
    pub west: i64,
    pub north: i64,
    pub east: i64,
}

impl GeoRect {
    pub open spec fn wf(self) -> bool {
        self.south <= self.north && self.west <= self.east
    }

    /// Every edge coordinate is small enough for the spatial indexes.
    pub open spec fn in_tree_range(self) -> bool {
        tree_coord(self.south) && tree_coord(self.west) && tree_coord(self.north) && tree_coord(
            self.east,
        )
    }

    /// The box holds the coordinate pair, edges included.
    pub open spec fn holds(self, lat: int, lon: int) -> bool {
        self.south <= lat <= self.north && self.west <= lon <= self.east
    }

    /// The two closed boxes share at least one point.
    pub open spec fn intersects_spec(self, other: GeoRect) -> bool {
        self.south <= other.north && other.south <= self.north && self.west <= other.east
            && other.west <= self.east
    }

    pub fn intersects(&self, other: &GeoRect) -> (r: bool)
        ensures
            r == self.intersects_spec(*other),
    {
        self.south <= other.north && other.south <= self.north && self.west <= other.east
            && other.west <= self.east
    }
}

/// The coordinate fits comfortably in 62 bits, so that differences fit in
/// 63 bits and their pairwise products in an `i128`.
pub open spec fn in_coord_range(p: WorldPoint) -> bool {
    -0x4000_0000_0000_0000 < p.x < 0x4000_0000_0000_0000 && -0x4000_0000_0000_0000 < p.y
        < 0x4000_0000_0000_0000
}

/// The ray cast rightward from `p` crosses the open-below, closed-above edge
/// from `a` to `b`.  The comparison of `p` against the edge is exact: the
/// rational intersection abscissa is compared by cross-multiplication.
pub open spec fn edge_crosses(p: WorldPoint, a: WorldPoint, b: WorldPoint) -> bool {
    ((a.y > p.y) != (b.y > p.y)) && (if b.y - a.y > 0 {
        (p.x - a.x) * (b.y - a.y) < (b.x - a.x) * (p.y - a.y)
    } else {
        (p.x - a.x) * (b.y - a.y) > (b.x - a.x) * (p.y - a.y)
    })
}

/// Edges of the closed ring `vs`, taken as `(vs[i], vs[i - 1])` with the
/// first edge wrapping to the last vertex; this counts how many of the
/// first `k` of them the rightward ray from `p` crosses.
pub open spec fn crossings(p: WorldPoint, vs: Seq<WorldPoint>, k: int) -> nat
    decreases k,
{
    if k <= 0 || k > vs.len() {
        0
    } else {
        let prev = if k == 1 {
            vs[vs.len() - 1]
        } else {
            vs[k - 2]
        };
        crossings(p, vs, k - 1) + if edge_crosses(p, vs[k - 1], prev) {
            1nat
        } else {
            0nat
        }
    }
}

/// The even-odd rule: `p` is inside when the rightward ray crosses the
/// ring's edges an odd number of times.  Rings of fewer than three vertices
/// enclose nothing.
pub open spec fn point_in_polygon_spec(p: WorldPoint, vs: Seq<WorldPoint>) -> bool {
    vs.len() >= 3 && crossings(p, vs, vs.len() as int) % 2 == 1
}

/// A product of two 64-bit quantities fits in 128 bits.
proof fn lemma_bounded_product(a: int, b: int)
    requires
        -0x8000_0000_0000_0000 <= a <= 0x8000_0000_0000_0000,
        -0x8000_0000_0000_0000 <= b <= 0x8000_0000_0000_0000,
    ensures
        -0x7fff_ffff_ffff_ffff_ffff_ffff_ffff_ffff <= a * b
            <= 0x7fff_ffff_ffff_ffff_ffff_ffff_ffff_ffff,
{
    assert(-0x4000_0000_0000_0000_0000_0000_0000_0000 <= a * b
        <= 0x4000_0000_0000_0000_0000_0000_0000_0000) by (nonlinear_arith)
        requires
            -0x8000_0000_0000_0000 <= a <= 0x8000_0000_0000_0000,
            -0x8000_0000_0000_0000 <= b <= 0x8000_0000_0000_0000,
    ;
}

/// Even-odd point-in-polygon test over the ring's vertices, used to find
/// the feature under a click.  The products are taken in 128 bits, so no
/// coordinate magnitude can overflow them.
pub fn is_point_in_polygon(point: &WorldPoint, vertices: &Vec<WorldPoint>) -> (inside: bool)
    requires
        in_coord_range(*point),
        forall|t: int| 0 <= t < vertices@.len() ==> in_coord_range(#[trigger] vertices@[t]),
    ensures
        inside == point_in_polygon_spec(*point, vertices@),
{
    if vertices.len() < 3 {
        return false;
    }
    let mut inside = false;
    let mut j: usize = vertices.len() - 1;
    let mut i: usize = 0;
    while i < vertices.len()
        invariant
            in_coord_range(*point),
            forall|t: int| 0 <= t < vertices@.len() ==> in_coord_range(#[trigger] vertices@[t]),
            vertices@.len() >= 3,
            i <= vertices@.len(),
            j == if i == 0 {
                vertices@.len() - 1
            } else {
                i - 1
            },
            inside == (crossings(*point, vertices@, i as int) % 2 == 1),
        decreases vertices@.len() - i,
    {
        let a = vertices[i];
        let b = vertices[j];
        let crosses: bool = if (a.y > point.y) != (b.y > point.y) {
            let dx: i128 = point.x as i128 - a.x as i128;
            let dy: i128 = b.y as i128 - a.y as i128;
            let ex: i128 = b.x as i128 - a.x as i128;
            let ey: i128 = point.y as i128 - a.y as i128;
            proof {
                lemma_bounded_product(dx as int, dy as int);
                lemma_bounded_product(ex as int, ey as int);
            }
            let lhs: i128 = dx * dy;
            let rhs: i128 = ex * ey;
            if b.y > a.y {
                lhs < rhs
            } else {
                lhs > rhs
            }
        } else {
            false
        };
        proof {
            assert(crosses == edge_crosses(*point, vertices@[i as int], vertices@[j as int]));
        }
        if crosses {
            inside = !inside;
        }
        j = i;
        i = i + 1;
    }
    inside
}


/// The integer grid of tile indices spanned by two corner tiles, columns
/// outermost: entry `t` is `(min_x + t / h, min_y + t % h)` where `h` is
/// the number of rows.  An inverted corner pair spans nothing.
pub fn tile_range(min_x: i32, min_y: i32, max_x: i32, max_y: i32) -> (tiles: Vec<(i32, i32)>)
    ensures
        min_x > max_x || min_y > max_y ==> tiles@.len() == 0,
        min_x <= max_x && min_y <= max_y ==> tiles@.len() == (max_x - min_x + 1) * (max_y - min_y
            + 1) && forall|t: int|
            0 <= t < tiles@.len() ==> (#[trigger] tiles@[t]) == (
                ((min_x as int + t / (max_y as int - min_y as int + 1)) as i32),
                ((min_y as int + t % (max_y as int - min_y as int + 1)) as i32),
            ),
{
    let mut tiles: Vec<(i32, i32)> = Vec::new();
    if min_x > max_x || min_y > max_y {
        return tiles;
    }
    let w: i64 = max_x as i64 - min_x as i64 + 1;
    let h: i64 = max_y as i64 - min_y as i64 + 1;
    let mut a: i64 = 0;
    while a < w
        invariant
            0 < h,
            h == max_y as int - min_y as int + 1,
            0 < w,
            w == max_x as int - min_x as int + 1,
            0 <= a <= w,
            tiles@.len() == a * h,
            forall|t: int|
                0 <= t < tiles@.len() ==> (#[trigger] tiles@[t]) == (
                    ((min_x as int + t / (h as int)) as i32),
                    ((min_y as int + t % (h as int)) as i32),
                ),
        decreases w - a,
    {
        let mut b: i64 = 0;
        while b < h
            invariant
                0 < h,
                h == max_y as int - min_y as int + 1,
                0 < w,
                w == max_x as int - min_x as int + 1,
                0 <= a < w,
                0 <= b <= h,
                tiles@.len() == a * h + b,
                forall|t: int|
                    0 <= t < tiles@.len() ==> (#[trigger] tiles@[t]) == (
                        ((min_x as int + t / (h as int)) as i32),
                        ((min_y as int + t % (h as int)) as i32),
                    ),
            decreases h - b,
        {
            let x: i64 = min_x as i64 + a;
            let y: i64 = min_y as i64 + b;
            tiles.push((x as i32, y as i32));
            proof {
                let t = a * h + b;
                vstd::arithmetic::div_mod::lemma_fundamental_div_mod_converse(t, h as int, a as int, b as int);
                assert(t / (h as int) == a && t % (h as int) == b);
            }
            b = b + 1;
        }
        proof {
            assert(a * h + h == (a + 1) * h) by (nonlinear_arith);
        }
        a = a + 1;
    }
    proof {
        assert(tiles@.len() == w * h);
    }
    tiles
}

} // verus!
