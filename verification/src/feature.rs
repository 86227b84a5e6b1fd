//! Geographic features and the deduplicated, spatially indexed store.
//!
//! A feature is a remote object with a stable string id, an open tag map
//! and one or more rings of geographic points.  The store holds each id at
//! most once; merging is idempotent and keeps the first arrival.  Range
//! queries go through an r-tree of the `rstar` crate that maps each
//! feature's bounding box to its position in the store.

use vstd::prelude::*;
use vstd::multiset::Multiset;
use crate::geom::GeoRect;
use crate::geom::TREE_COORD_LIMIT;
use crate::geom::WorldPoint;
use crate::geom::tree_coord;
use crate::geom::tree_key_in_range;
use crate::geom::in_coord_range;
use crate::geom::is_point_in_polygon;
use crate::geom::point_in_polygon_spec;
use rstar::RTree;
use rstar::primitives::GeomWithData;
use rstar::primitives::Rectangle;

verus! {

/// A geographic coordinate pair, in degrees scaled by a million.
#[derive(Clone, Copy, Debug, PartialEq, Eq, Structural)]
pub struct GeoPoint {
    pub lat: i64,
    pub lon: i64,
}

/// Both coordinates are small enough for the spatial index.  Any real
/// geographic coordinate in degrees scaled by a million is.
pub open spec fn geo_point_in_tree_range(q: GeoPoint) -> bool {
    tree_coord(q.lat) && tree_coord(q.lon)
}

/// Case folding of a single character: ASCII letters match regardless of
/// case, all other characters match exactly.
pub open spec fn char_eq_fold(a: char, b: char) -> bool {
    a == b || ('A' <= a <= 'Z' && b as u32 == a as u32 + 32) || ('A' <= b <= 'Z' && a as u32 == b
        as u32 + 32)
}

/// The two strings are equal up to ASCII case.
pub open spec fn str_eq_fold(a: Seq<char>, b: Seq<char>) -> bool {
    a.len() == b.len() && forall|i: int| 0 <= i < a.len() ==> char_eq_fold(a[i], #[trigger] b[i])
}

/// The first value stored under a key that matches `key` up to ASCII case,
/// scanning from the front.
pub open spec fn tag_lookup(pairs: Seq<(String, String)>, key: Seq<char>) -> Option<String>
    decreases pairs.len(),
{
    if pairs.len() == 0 {
        None
    } else if str_eq_fold(pairs[0].0@, key) {
        Some(pairs[0].1)
    } else {
        tag_lookup(pairs.drop_first(), key)
    }
}

fn char_matches_fold(a: char, b: char) -> (r: bool)
    ensures
        r == char_eq_fold(a, b),
{
    a == b || ('A' <= a && a <= 'Z' && b as u32 == a as u32 + 32) || ('A' <= b && b <= 'Z' && a
        as u32 == b as u32 + 32)
}

/// Case-insensitive string comparison, the one place where tag keys are
/// normalized: ASCII letters are folded, everything else compares exactly.
pub fn str_matches_fold(a: &str, b: &str) -> (r: bool)
    ensures
        r == str_eq_fold(a@, b@),
{
    let la = a.unicode_len();
    if la != b.unicode_len() {
        return false;
    }
    let mut i: usize = 0;
    while i < la
        invariant
            la == a@.len(),
            a@.len() == b@.len(),
            i <= la,
            forall|t: int| 0 <= t < i ==> char_eq_fold(a@[t], #[trigger] b@[t]),
        decreases la - i,
    {
        if !char_matches_fold(a.get_char(i), b.get_char(i)) {
            return false;
        }
        i = i + 1;
    }
    true
}

/// An open map from tag keys to values, e.g. `"highway" -> "primary"`.
/// Lookup is case-insensitive in the ASCII range, enforced here and nowhere
/// else.
#[derive(Clone, Debug)]
pub struct TagMap {
    pairs: Vec<(String, String)>,
}

impl TagMap {
    /// The key-value pairs, in insertion order.
    pub closed spec fn pairs_spec(self) -> Seq<(String, String)> {
        self.pairs@
    }

    pub fn new() -> (t: TagMap)
        ensures
            t.pairs_spec() == Seq::<(String, String)>::empty(),
    {
        TagMap { pairs: Vec::new() }
    }

    pub fn insert(&mut self, key: String, value: String)
        ensures
            final(self).pairs_spec() == old(self).pairs_spec().push((key, value)),
    {
        self.pairs.push((key, value));
    }

    pub fn len(&self) -> (n: usize)
        ensures
            n == self.pairs_spec().len(),
    {
        self.pairs.len()
    }

    /// The first value whose key matches `key` up to ASCII case.
    pub fn get(&self, key: &str) -> (r: Option<&String>)
        ensures
            r is Some <==> tag_lookup(self.pairs_spec(), key@) is Some,
            r is Some ==> tag_lookup(self.pairs_spec(), key@) == Some(*r->0),
    {
        let mut i: usize = 0;
        proof {
            assert(self.pairs@.skip(0) =~= self.pairs@);
        }
        while i < self.pairs.len()
            invariant
                i <= self.pairs@.len(),
                tag_lookup(self.pairs@, key@) == tag_lookup(self.pairs@.skip(i as int), key@),
            decreases self.pairs@.len() - i,
        {
            proof {
                assert(self.pairs@.skip(i as int)[0] == self.pairs@[i as int]);
                assert(self.pairs@.skip(i as int).drop_first() =~= self.pairs@.skip(i + 1));
            }
            if str_matches_fold(self.pairs[i].0.as_str(), key) {
                return Some(&self.pairs[i].1);
            }
            i = i + 1;
        }
        proof {
            assert(self.pairs@.skip(self.pairs@.len() as int) =~= Seq::<(String, String)>::empty());
        }
        None
    }
}

/// All points of all rings, in order.
pub open spec fn flat_points(rings: Seq<Vec<GeoPoint>>) -> Seq<GeoPoint>
    decreases rings.len(),
{
    if rings.len() == 0 {
        Seq::empty()
    } else {
        flat_points(rings.drop_last()) + rings.last()@
    }
}

/// Collect every point of every ring into one list.
fn flatten_rings(rings: &Vec<Vec<GeoPoint>>) -> (out: Vec<GeoPoint>)
    ensures
        out@ == flat_points(rings@),
{
    let mut out: Vec<GeoPoint> = Vec::new();
    let mut i: usize = 0;
    proof {
        assert(rings@.take(0) =~= Seq::<Vec<GeoPoint>>::empty());
        assert(out@ =~= flat_points(rings@.take(0)));
    }
    while i < rings.len()
        invariant
            i <= rings@.len(),
            out@ == flat_points(rings@.take(i as int)),
        decreases rings@.len() - i,
    {
        let ghost prev = out@;
        let ring = &rings[i];
        let mut j: usize = 0;
        while j < ring.len()
            invariant
                j <= ring@.len(),
                ring@ == rings@[i as int]@,
                0 <= i < rings@.len(),
                out@ == prev + ring@.take(j as int),
            decreases ring@.len() - j,
        {
            out.push(ring[j]);
            proof {
                assert(ring@.take(j + 1) =~= ring@.take(j as int).push(ring@[j as int]));
                assert(out@ =~= prev + ring@.take(j + 1));
            }
            j = j + 1;
        }
        proof {
            assert(ring@.take(ring@.len() as int) =~= ring@);
            assert(rings@.take(i + 1).drop_last() =~= rings@.take(i as int));
            assert(rings@.take(i + 1).last() == rings@[i as int]);
            assert(out@ =~= flat_points(rings@.take(i + 1)));
        }
        i = i + 1;
    }
    proof {
        assert(rings@.take(rings@.len() as int) =~= rings@);
    }
    out
}

/// A geometry is accepted by `MapFeature::new` when it has at least one
/// point and every point is small enough for the spatial index.
pub open spec fn element_accepted(rings: Seq<Vec<GeoPoint>>) -> bool {
    let flat = flat_points(rings);
    flat.len() > 0 && forall|t: int|
        0 <= t < flat.len() ==> geo_point_in_tree_range(#[trigger] flat[t])
}

/// The tight closed bounding box of a nonempty list of points: it holds
/// every point, and each of its four edges is attained by some point.
fn bbox_of_points(pts: &Vec<GeoPoint>) -> (r: GeoRect)
    requires
        pts@.len() > 0,
    ensures
        r.wf(),
        forall|t: int| 0 <= t < pts@.len() ==> r.holds((#[trigger] pts@[t]).lat as int, pts@[t].lon as int),
        exists|t: int| 0 <= t < pts@.len() && (#[trigger] pts@[t]).lat == r.south,
        exists|t: int| 0 <= t < pts@.len() && (#[trigger] pts@[t]).lat == r.north,
        exists|t: int| 0 <= t < pts@.len() && (#[trigger] pts@[t]).lon == r.west,
        exists|t: int| 0 <= t < pts@.len() && (#[trigger] pts@[t]).lon == r.east,
{
    let first = pts[0];
    let mut south: i64 = first.lat;
    let mut north: i64 = first.lat;
    let mut west: i64 = first.lon;
    let mut east: i64 = first.lon;
    let mut t: usize = 1;
    while t < pts.len()
        invariant
            1 <= t <= pts@.len(),
            south <= north && west <= east,
            forall|u: int|
                0 <= u < t ==> south <= (#[trigger] pts@[u]).lat <= north && west <= pts@[u].lon
                    <= east,
            exists|u: int| 0 <= u < t && (#[trigger] pts@[u]).lat == south,
            exists|u: int| 0 <= u < t && (#[trigger] pts@[u]).lat == north,
            exists|u: int| 0 <= u < t && (#[trigger] pts@[u]).lon == west,
            exists|u: int| 0 <= u < t && (#[trigger] pts@[u]).lon == east,
        decreases pts@.len() - t,
    {
        let p = pts[t];
        if p.lat < south {
            south = p.lat;
        }
        if p.lat > north {
            north = p.lat;
        }
        if p.lon < west {
            west = p.lon;
        }
        if p.lon > east {
            east = p.lon;
        }
        t = t + 1;
    }
    GeoRect { south, west, north, east }
}

/// A single fetched geographic object: a stable id, its tags and its
/// geometry, together with the tight bounding box of all its points.
#[derive(Clone, Debug)]
pub struct MapFeature {
    pub id: String,
    pub properties: TagMap,
    pub geometry: Vec<Vec<GeoPoint>>,
    /// The tight closed bounding box of `geometry`; `wf` ties it to the
    /// points, and `new` is the way to compute it.
    pub bounds: GeoRect,
}

impl MapFeature {
    pub open spec fn bounds_spec(self) -> GeoRect {
        self.bounds
    }

    /// The feature has at least one point, its coordinates are small
    /// enough for the spatial index, and `bounds` is its geometry's tight
    /// closed bounding box.
    pub open spec fn wf(self) -> bool {
        let flat = flat_points(self.geometry@);
        &&& self.bounds_spec().wf()
        &&& self.bounds_spec().in_tree_range()
        &&& flat.len() > 0
        &&& forall|t: int|
            0 <= t < flat.len() ==> self.bounds_spec().holds(
                (#[trigger] flat[t]).lat as int,
                flat[t].lon as int,
            )
        &&& exists|t: int| 0 <= t < flat.len() && (#[trigger] flat[t]).lat == self.bounds_spec().south
        &&& exists|t: int| 0 <= t < flat.len() && (#[trigger] flat[t]).lat == self.bounds_spec().north
        &&& exists|t: int| 0 <= t < flat.len() && (#[trigger] flat[t]).lon == self.bounds_spec().west
        &&& exists|t: int| 0 <= t < flat.len() && (#[trigger] flat[t]).lon == self.bounds_spec().east
    }

    /// Build a feature, computing its bounding box.  Features without any
    /// geometry point are refused, and so are features with a coordinate
    /// too large for the spatial index.
    pub fn new(id: String, properties: TagMap, geometry: Vec<Vec<GeoPoint>>) -> (res: Option<
        MapFeature,
    >)
        ensures
            res is Some <==> element_accepted(geometry@),
            res is Some ==> (res->0).wf() && (res->0).id == id && (res->0).properties == properties
                && (res->0).geometry == geometry,
    {
        let flat = flatten_rings(&geometry);
        if flat.is_empty() {
            return None;
        }
        let bounds = bbox_of_points(&flat);
        if bounds.south < -TREE_COORD_LIMIT || bounds.north > TREE_COORD_LIMIT || bounds.west
            < -TREE_COORD_LIMIT || bounds.east > TREE_COORD_LIMIT {
            proof {
                if bounds.south < -TREE_COORD_LIMIT {
                    let t = choose|t: int|
                        0 <= t < flat@.len() && (#[trigger] flat@[t]).lat == bounds.south;
                    assert(!geo_point_in_tree_range(flat@[t]));
                }
                if bounds.north > TREE_COORD_LIMIT {
                    let t = choose|t: int|
                        0 <= t < flat@.len() && (#[trigger] flat@[t]).lat == bounds.north;
                    assert(!geo_point_in_tree_range(flat@[t]));
                }
                if bounds.west < -TREE_COORD_LIMIT {
                    let t = choose|t: int|
                        0 <= t < flat@.len() && (#[trigger] flat@[t]).lon == bounds.west;
                    assert(!geo_point_in_tree_range(flat@[t]));
                }
                if bounds.east > TREE_COORD_LIMIT {
                    let t = choose|t: int|
                        0 <= t < flat@.len() && (#[trigger] flat@[t]).lon == bounds.east;
                    assert(!geo_point_in_tree_range(flat@[t]));
                }
            }
            return None;
        }
        proof {
            assert forall|t: int| 0 <= t < flat@.len() implies geo_point_in_tree_range(
                #[trigger] flat@[t],
            ) by {
                assert(bounds.holds(flat@[t].lat as int, flat@[t].lon as int));
            }
        }
        Some(MapFeature { id, properties, geometry, bounds })
    }

    /// The tight closed bounding box of the feature's geometry.
    pub fn envelope(&self) -> (r: GeoRect)
        ensures
            r == self.bounds_spec(),
    {
        self.bounds
    }
}

/// An r-tree of `rstar` mapping bounding boxes to store positions.  Verus
/// cannot express the trait bounds of `rstar::RTree` itself, so the tree
/// sits in a field of this opaque struct and is reached only through the
/// trusted wrappers below.
#[verifier::external_body]
pub struct FeatTree {
    tree: RTree<GeomWithData<Rectangle<[i64; 2]>, usize>>,
}

/// A bounding box as a plain key `(west, south, east, north)`: longitude is
/// the x axis, latitude the y axis.
pub open spec fn georect_key(r: GeoRect) -> (i64, i64, i64, i64) {
    (r.west, r.south, r.east, r.north)
}

/// What the r-tree holds: box keys paired with store positions, as a
/// multiset, since the tree keeps no order.
pub uninterp spec fn feat_tree_entries(t: FeatTree) -> Multiset<((i64, i64, i64, i64), usize)>;

/// Relies on `rstar::RTree::new`: it returns an empty tree.
#[verifier::external_body]
fn feat_tree_new() -> (t: FeatTree)
    ensures
        feat_tree_entries(t) == Multiset::<((i64, i64, i64, i64), usize)>::empty(),
{
    FeatTree { tree: RTree::new() }
}

/// Relies on `rstar::RTree::insert`: it adds exactly the given element, and
/// on `Rectangle::from_corners`, which keeps the corners of a well-formed
/// box as given (it normalizes per axis with min and max).
///
/// Insertion does 64-bit arithmetic on the stored coordinates — node
/// splitting multiplies spans into areas and sums several of them, and the
/// reinsertion pass squares center offsets — so the new box and everything
/// already stored must be within `TREE_COORD_LIMIT`, which keeps all of
/// that arithmetic far from overflow.
#[verifier::external_body]
fn feat_tree_insert(t: &mut FeatTree, r: &GeoRect, idx: usize)
    requires
        r.wf(),
        r.in_tree_range(),
        forall|e: ((i64, i64, i64, i64), usize)|
            feat_tree_entries(*old(t)).count(e) > 0 ==> #[trigger] tree_key_in_range(e.0),
    ensures
        feat_tree_entries(*final(t)) == feat_tree_entries(*old(t)).insert((georect_key(*r), idx)),
{
    t.tree.insert(
        GeomWithData::new(Rectangle::from_corners([r.west, r.south], [r.east, r.north]), idx),
    );
}

/// The closed boxes of the two keys touch or overlap, as
/// `rstar::AABB::intersects` tests them (`<=` on each axis).
pub open spec fn fkeys_closed_intersect(a: (i64, i64, i64, i64), b: (i64, i64, i64, i64)) -> bool {
    a.0 <= b.2 && a.1 <= b.3 && a.2 >= b.0 && a.3 >= b.1
}

/// Relies on `rstar::RTree::locate_in_envelope_intersecting`: it yields
/// exactly the elements whose envelope intersects the given one, where
/// `AABB::intersects` compares corners with `<=` per axis (a closed test).
#[verifier::external_body]
fn feat_tree_intersecting(t: &FeatTree, q: &GeoRect) -> (res: Vec<((i64, i64, i64, i64), usize)>)
    requires
        q.wf(),
    ensures
        res@.to_multiset() == feat_tree_entries(*t).filter(
            |e: ((i64, i64, i64, i64), usize)| fkeys_closed_intersect(e.0, georect_key(*q)),
        ),
{
    let envelope = rstar::AABB::from_corners([q.west, q.south], [q.east, q.north]);
    t.tree.locate_in_envelope_intersecting(&envelope).map(
        |e| (
            (e.geom().lower()[0], e.geom().lower()[1], e.geom().upper()[0], e.geom().upper()[1]),
            e.data,
        ),
    ).collect()
}

/// Some feature of the sequence carries this id.
pub open spec fn has_id(fs: Seq<MapFeature>, id: Seq<char>) -> bool {
    exists|i: int| 0 <= i < fs.len() && (#[trigger] fs[i]).id@ == id
}

/// How many features of the sequence carry this id.
pub open spec fn count_id(fs: Seq<MapFeature>, id: Seq<char>) -> nat
    decreases fs.len(),
{
    if fs.len() == 0 {
        0
    } else {
        count_id(fs.drop_last(), id) + if fs.last().id@ == id {
            1nat
        } else {
            0nat
        }
    }
}

/// No two features of the sequence share an id.
pub open spec fn ids_unique(fs: Seq<MapFeature>) -> bool {
    forall|i: int, j: int| 0 <= i < j < fs.len() ==> (#[trigger] fs[i]).id@ != (#[trigger] fs[j]).id@
}

/// The store after merging `inc` into `stored`, one candidate at a time:
/// a candidate whose id is already present is skipped, so the first
/// arrival wins; any other is appended.
pub open spec fn merge_spec(stored: Seq<MapFeature>, inc: Seq<MapFeature>) -> Seq<MapFeature>
    decreases inc.len(),
{
    if inc.len() == 0 {
        stored
    } else {
        let pre = merge_spec(stored, inc.drop_last());
        if has_id(pre, inc.last().id@) {
            pre
        } else {
            pre.push(inc.last())
        }
    }
}

/// The deduplicated, spatially indexed feature store.
pub struct FeatureStore {
    features: Vec<MapFeature>,
    tree: FeatTree,
}

impl FeatureStore {
    /// The stored features, in insertion order.
    pub closed spec fn features_spec(self) -> Seq<MapFeature> {
        self.features@
    }

    /// The r-tree maps each stored feature's bounding box to its position,
    /// ids are unique, and every stored feature is well-formed.
    pub closed spec fn inv(self) -> bool {
        &&& ids_unique(self.features@)
        &&& forall|i: int| 0 <= i < self.features@.len() ==> (#[trigger] self.features@[i]).wf()
        &&& feat_tree_entries(self.tree) == Seq::new(
            self.features@.len(),
            |i: int| (georect_key(self.features@[i].bounds_spec()), i as usize),
        ).to_multiset()
    }

    pub fn new() -> (s: Self)
        ensures
            s.features_spec() == Seq::<MapFeature>::empty(),
            s.inv(),
    {
        let s = FeatureStore { features: Vec::new(), tree: feat_tree_new() };
        proof {
            broadcast use vstd::seq_lib::group_to_multiset_ensures;

            assert(Seq::new(0, |i: int| (georect_key(s.features@[i].bounds_spec()), i as usize))
                =~= Seq::<((i64, i64, i64, i64), usize)>::empty());
            assert(feat_tree_entries(s.tree) =~= Seq::new(
                s.features@.len(),
                |i: int| (georect_key(s.features@[i].bounds_spec()), i as usize),
            ).to_multiset());
        }
        s
    }

    pub fn len(&self) -> (n: usize)
        ensures
            n == self.features_spec().len(),
    {
        self.features.len()
    }

    /// Whether some stored feature carries exactly this id.  Exact string
    /// equality: an id that merely contains another as a substring does not
    /// match.
    pub fn contains_id(&self, id: &String) -> (r: bool)
        ensures
            r == has_id(self.features_spec(), id@),
    {
        let mut i: usize = 0;
        while i < self.features.len()
            invariant
                i <= self.features@.len(),
                forall|t: int| 0 <= t < i ==> (#[trigger] self.features@[t]).id@ != id@,
            decreases self.features@.len() - i,
        {
            if self.features[i].id == *id {
                return true;
            }
            i = i + 1;
        }
        false
    }

    /// Merge newly fetched features: skip every candidate whose id is
    /// already stored (the first arrival wins, so an id never occurs
    /// twice), append the rest, and return how many were actually added.
    pub fn merge(&mut self, new_features: Vec<MapFeature>) -> (added: usize)
        requires
            old(self).inv(),
            forall|i: int| 0 <= i < new_features@.len() ==> (#[trigger] new_features@[i]).wf(),
        ensures
            final(self).features_spec() == merge_spec(old(self).features_spec(), new_features@),
            final(self).inv(),
            added == final(self).features_spec().len() - old(self).features_spec().len(),
    {
        broadcast use vstd::seq_lib::group_to_multiset_ensures;
        broadcast use vstd::multiset::group_multiset_axioms;

        let ghost old_features = self.features@;
        let ghost all = new_features@;
        let initial_len = self.features.len();
        let mut rest = new_features;
        let ghost mut k: int = 0;
        proof {
            assert(rest@ =~= all.skip(0));
            assert(merge_spec(old_features, all.take(0)) =~= old_features);
        }
        while rest.len() > 0
            invariant
                0 <= k <= all.len(),
                rest@ == all.skip(k),
                forall|i: int| 0 <= i < all.len() ==> (#[trigger] all[i]).wf(),
                self.features@ == merge_spec(old_features, all.take(k)),
                self.inv(),
                initial_len == old_features.len(),
                old_features.len() <= self.features@.len(),
            decreases rest@.len(),
        {
            let f = rest.remove(0);
            proof {
                assert(all.skip(k)[0] == all[k]);
                assert(all.skip(k).remove(0) =~= all.skip(k + 1));
                assert(all.take(k + 1).drop_last() =~= all.take(k));
                assert(all.take(k + 1).last() == all[k]);
            }
            let ghost pre = self.features@;
            if !self.contains_id(&f.id) {
                let idx = self.features.len();
                let bounds = f.envelope();
                proof {
                    broadcast use vstd::seq_lib::group_to_multiset_ensures;
                    broadcast use vstd::multiset::group_multiset_axioms;

                    assert(f.wf());
                    assert(bounds.in_tree_range());
                    let entries_pre = Seq::new(
                        pre.len(),
                        |i: int| (georect_key(pre[i].bounds_spec()), i as usize),
                    );
                    assert forall|e: ((i64, i64, i64, i64), usize)|
                        feat_tree_entries(self.tree).count(e) > 0 implies #[trigger] tree_key_in_range(
                        e.0,
                    ) by {
                        assert(entries_pre.to_multiset().count(e) > 0);
                        assert(entries_pre.contains(e));
                        let i = choose|i: int| 0 <= i < entries_pre.len() && entries_pre[i] == e;
                        assert(pre[i].wf());
                        assert(e.0 == georect_key(pre[i].bounds_spec()));
                    }
                }
                feat_tree_insert(&mut self.tree, &bounds, idx);
                self.features.push(f);
                proof {
                    broadcast use vstd::seq_lib::group_to_multiset_ensures;
                    broadcast use vstd::multiset::group_multiset_axioms;

                    let entries_pre = Seq::new(
                        pre.len(),
                        |i: int| (georect_key(pre[i].bounds_spec()), i as usize),
                    );
                    let entries_post = Seq::new(
                        self.features@.len(),
                        |i: int| (georect_key(self.features@[i].bounds_spec()), i as usize),
                    );
                    let e = (georect_key(all[k].bounds_spec()), idx);
                    assert(entries_post =~= entries_pre.push(e));
                    assert(entries_pre.push(e).to_multiset() =~= entries_pre.to_multiset().insert(
                        e,
                    ));
                    assert(feat_tree_entries(self.tree) =~= entries_post.to_multiset());
                    assert forall|i: int, j: int| 0 <= i < j < self.features@.len() implies (
                    #[trigger] self.features@[i]).id@ != (#[trigger] self.features@[j]).id@ by {
                        if j == self.features@.len() - 1 {
                            assert(!has_id(pre, all[k].id@));
                            assert(self.features@[i] == pre[i]);
                        }
                    }
                }
            } else {
                proof {
                    assert(merge_spec(old_features, all.take(k + 1)) =~= pre);
                }
            }
            proof {
                k = k + 1;
            }
        }
        proof {
            assert(all.skip(k).len() == 0);
            assert(k == all.len());
            assert(all.take(k) =~= all);
        }
        self.features.len() - initial_len
    }

    /// All stored features whose bounding box touches `rect`, each exactly
    /// once, via the r-tree.
    #[verifier::rlimit(50)]
    pub fn query_viewport(&self, rect: &GeoRect) -> (res: Vec<&MapFeature>)
        requires
            self.inv(),
            rect.wf(),
        ensures
            forall|j: int|
                0 <= j < res@.len() ==> self.features_spec().contains(*(#[trigger] res@[j])) && (
                *res@[j]).bounds_spec().intersects_spec(*rect),
            forall|i: int|
                0 <= i < self.features_spec().len() && (#[trigger] self.features_spec()[i]).bounds_spec().intersects_spec(
                    *rect,
                ) ==> exists|j: int|
                    0 <= j < res@.len() && *(#[trigger] res@[j]) == self.features_spec()[i],
            forall|j1: int, j2: int|
                0 <= j1 < j2 < res@.len() ==> (#[trigger] res@[j1]).id@ != (#[trigger] res@[j2]).id@,
    {
        broadcast use vstd::seq_lib::group_to_multiset_ensures;
        broadcast use vstd::multiset::group_multiset_axioms;

        let n = self.features.len();
        let ghost entries = Seq::new(
            self.features@.len(),
            |i: int| (georect_key(self.features@[i].bounds_spec()), i as usize),
        );
        proof {
            assert(entries.no_duplicates()) by {
                assert forall|a: int, b: int| 0 <= a < b < entries.len() implies entries[a]
                    != entries[b] by {
                    assert(b < n);
                    assert(entries[a].1 == a as usize);
                    assert(entries[b].1 == b as usize);
                }
            }
            entries.lemma_multiset_has_no_duplicates();
        }
        let hits = feat_tree_intersecting(&self.tree, rect);
        let ghost fseq = self.features@;
        let mut res: Vec<&MapFeature> = Vec::new();
        let mut j: usize = 0;
        while j < hits.len()
            invariant
                self.inv(),
                rect.wf(),
                fseq == self.features@,
                fseq.len() == n,
                entries == Seq::new(
                    fseq.len(),
                    |i: int| (georect_key(fseq[i].bounds_spec()), i as usize),
                ),
                hits@.to_multiset() == feat_tree_entries(self.tree).filter(
                    |e: ((i64, i64, i64, i64), usize)| fkeys_closed_intersect(
                        e.0,
                        georect_key(*rect),
                    ),
                ),
                j <= hits@.len(),
                res@.len() == j,
                forall|t: int|
                    0 <= t < j ==> (#[trigger] hits@[t]).1 < fseq.len() && res@[t] == &fseq[hits@[t].1 as int]
                        && hits@[t] == entries[hits@[t].1 as int],
            decreases hits@.len() - j,
        {
            let idx = hits[j].1;
            proof {
                broadcast use vstd::seq_lib::group_to_multiset_ensures;
                broadcast use vstd::multiset::group_multiset_axioms;

                assert(hits@.contains(hits@[j as int]));
                assert(hits@.to_multiset().count(hits@[j as int]) > 0);
                assert(feat_tree_entries(self.tree).count(hits@[j as int]) > 0);
                assert(entries.to_multiset().count(hits@[j as int]) > 0);
                assert(entries.contains(hits@[j as int]));
                let i = choose|i: int| 0 <= i < entries.len() && entries[i] == hits@[j as int];
                assert(0 <= i < fseq.len() && fseq.len() <= usize::MAX);
                assert(entries[i].1 == i as usize);
                assert(idx == i);
                assert(feat_tree_entries(self.tree).filter(
                    |e: ((i64, i64, i64, i64), usize)| fkeys_closed_intersect(
                        e.0,
                        georect_key(*rect),
                    ),
                ).count(hits@[j as int]) > 0);
                assert(fkeys_closed_intersect(entries[i].0, georect_key(*rect)));
                assert(fseq[i].bounds_spec().intersects_spec(*rect));
                assert(0 <= i < self.features_spec().len()
                    && self.features_spec()[i].bounds_spec().intersects_spec(*rect));
            }
            let feat = &self.features[idx];
            res.push(feat);
            j = j + 1;
        }
        proof {
            assert forall|t: int|
                0 <= t < res@.len() implies (self.features_spec().contains(*(#[trigger] res@[t]))
                    && (*res@[t]).bounds_spec().intersects_spec(*rect)) by {
                assert(hits@.contains(hits@[t]));
                assert(hits@.to_multiset().count(hits@[t]) > 0);
                assert(feat_tree_entries(self.tree).filter(
                    |e: ((i64, i64, i64, i64), usize)| fkeys_closed_intersect(
                        e.0,
                        georect_key(*rect),
                    ),
                ).count(hits@[t]) > 0);
                let i = hits@[t].1 as int;
                assert(hits@[t] == entries[i]);
                assert(fkeys_closed_intersect(entries[i].0, georect_key(*rect)));
                assert(fseq[i].bounds_spec().intersects_spec(*rect));
                assert(*res@[t] == fseq[i]);
                assert(fseq.contains(fseq[i]));
            }
            assert forall|i: int|
                0 <= i < fseq.len() && (#[trigger] fseq[i]).bounds_spec().intersects_spec(*rect)
                    implies exists|t: int| 0 <= t < res@.len() && *(#[trigger] res@[t]) == fseq[i] by {
                assert(0 <= i < fseq.len() && fseq.len() <= usize::MAX);
                assert(entries[i] == (georect_key(fseq[i].bounds_spec()), i as usize));
                assert(entries.contains(entries[i]));
                assert(entries.to_multiset().count(entries[i]) > 0);
                assert(fkeys_closed_intersect(entries[i].0, georect_key(*rect)));
                assert(hits@.to_multiset().count(entries[i]) > 0);
                assert(hits@.contains(entries[i]));
                let t = choose|t: int| 0 <= t < hits@.len() && hits@[t] == entries[i];
                assert(hits@[t].1 == i as usize);
                assert(*res@[t] == fseq[i]);
            }
            assert forall|j1: int, j2: int| 0 <= j1 < j2 < res@.len() implies (
            #[trigger] res@[j1]).id@ != (#[trigger] res@[j2]).id@ by {
                entries.lemma_multiset_has_no_duplicates();
                if hits@[j1] == hits@[j2] {
                    let s0 = hits@.subrange(0, j2);
                    let s1 = hits@.subrange(j2, hits@.len() as int);
                    assert(hits@ =~= s0 + s1);
                    vstd::seq_lib::lemma_multiset_commutative(s0, s1);
                    assert(s0.to_multiset().count(hits@[j1]) > 0);
                    assert(s1.to_multiset().count(hits@[j2]) > 0);
                    assert(hits@.to_multiset().count(hits@[j1]) >= 2);
                    assert(entries.to_multiset().count(hits@[j1]) >= 2);
                    assert(false);
                }
                assert(hits@[j1].1 != hits@[j2].1);
            }
        }
        res
    }
}


/// A fetched element before it becomes a feature: the id, tags and rings
/// as they come from the remote response, not yet validated.
#[derive(Clone, Debug)]
pub struct RawElement {
    pub id: String,
    pub properties: TagMap,
    pub geometry: Vec<Vec<GeoPoint>>,
}

/// The elements whose geometry `MapFeature::new` accepts, in order.
pub open spec fn kept_elements(elems: Seq<RawElement>) -> Seq<RawElement>
    decreases elems.len(),
{
    if elems.len() == 0 {
        Seq::empty()
    } else {
        let pre = kept_elements(elems.drop_last());
        if element_accepted(elems.last().geometry@) {
            pre.push(elems.last())
        } else {
            pre
        }
    }
}

/// Turn fetched elements into features: an element without any geometry
/// point, or with a coordinate too large for the spatial index, is
/// dropped; every other becomes a well-formed feature with its bounding
/// box computed, in order.
pub fn features_from_elements(elements: Vec<RawElement>) -> (res: Vec<MapFeature>)
    ensures
        res@.len() == kept_elements(elements@).len(),
        forall|j: int|
            0 <= j < res@.len() ==> (#[trigger] res@[j]).wf() && res@[j].id == kept_elements(
                elements@,
            )[j].id && res@[j].properties == kept_elements(elements@)[j].properties
                && res@[j].geometry == kept_elements(elements@)[j].geometry,
{
    let ghost all = elements@;
    let mut rest = elements;
    let mut res: Vec<MapFeature> = Vec::new();
    let ghost mut k: int = 0;
    proof {
        assert(rest@ =~= all.skip(0));
        assert(kept_elements(all.take(0)) =~= Seq::<RawElement>::empty());
    }
    while rest.len() > 0
        invariant
            0 <= k <= all.len(),
            rest@ == all.skip(k),
            res@.len() == kept_elements(all.take(k)).len(),
            forall|j: int|
                0 <= j < res@.len() ==> (#[trigger] res@[j]).wf() && res@[j].id == kept_elements(
                    all.take(k),
                )[j].id && res@[j].properties == kept_elements(all.take(k))[j].properties
                    && res@[j].geometry == kept_elements(all.take(k))[j].geometry,
        decreases rest@.len(),
    {
        let e = rest.remove(0);
        proof {
            assert(all.skip(k)[0] == all[k]);
            assert(all.skip(k).remove(0) =~= all.skip(k + 1));
            assert(all.take(k + 1).drop_last() =~= all.take(k));
            assert(all.take(k + 1).last() == all[k]);
        }
        let ghost prev = res@;
        if let Some(f) = MapFeature::new(e.id, e.properties, e.geometry) {
            res.push(f);
        }
        proof {
            assert(kept_elements(all.take(k + 1)) == if element_accepted(all[k].geometry@) {
                kept_elements(all.take(k)).push(all[k])
            } else {
                kept_elements(all.take(k))
            });
        }
        proof {
            k = k + 1;
        }
    }
    proof {
        assert(all.skip(k).len() == 0);
        assert(all.take(k) =~= all);
    }
    res
}

/// Law: merging never touches what is already stored.  The stored prefix
/// comes through unchanged (so no existing feature's geometry is ever
/// mutated), and for an id already present the number of features under it
/// stays exactly as it was.
pub proof fn lemma_merge_keeps_existing(stored: Seq<MapFeature>, inc: Seq<MapFeature>, id: Seq<char>)
    requires
        has_id(stored, id),
    ensures
        merge_spec(stored, inc).len() >= stored.len(),
        forall|i: int| 0 <= i < stored.len() ==> merge_spec(stored, inc)[i] == stored[i],
        count_id(merge_spec(stored, inc), id) == count_id(stored, id),
    decreases inc.len(),
{
    if inc.len() > 0 {
        lemma_merge_keeps_existing(stored, inc.drop_last(), id);
        let pre = merge_spec(stored, inc.drop_last());
        let f = inc.last();
        if !has_id(pre, f.id@) {
            let w = choose|i: int| 0 <= i < stored.len() && (#[trigger] stored[i]).id@ == id;
            assert(pre[w] == stored[w]);
            assert(has_id(pre, id));
            assert(f.id@ != id);
            assert(pre.push(f).drop_last() =~= pre);
            assert(pre.push(f).last() == f);
        }
    }
}


/// A feature's exterior ring as plane points, longitude on the x axis and
/// latitude on the y axis.
pub open spec fn exterior_ring(f: MapFeature) -> Seq<WorldPoint> {
    if f.geometry@.len() == 0 {
        Seq::empty()
    } else {
        f.geometry@[0]@.map_values(|q: GeoPoint| WorldPoint { x: q.lon, y: q.lat })
    }
}

/// The point lies inside the feature's exterior ring, by the even-odd
/// rule.
pub open spec fn feature_hit(f: MapFeature, p: WorldPoint) -> bool {
    point_in_polygon_spec(p, exterior_ring(f))
}

/// Whether a point (longitude as x, latitude as y, in fixed-point degrees)
/// falls inside the feature's exterior ring.
pub fn feature_contains_point(f: &MapFeature, p: WorldPoint) -> (r: bool)
    requires
        in_coord_range(p),
        forall|j: int|
            0 <= j < exterior_ring(*f).len() ==> in_coord_range(#[trigger] exterior_ring(*f)[j]),
    ensures
        r == feature_hit(*f, p),
{
    if f.geometry.is_empty() {
        return false;
    }
    let ring = &f.geometry[0];
    let mut verts: Vec<WorldPoint> = Vec::new();
    let mut j: usize = 0;
    proof {
        assert(verts@ =~= exterior_ring(*f).take(0));
    }
    while j < ring.len()
        invariant
            j <= ring@.len(),
            f.geometry@.len() > 0,
            ring@ == f.geometry@[0]@,
            verts@ == exterior_ring(*f).take(j as int),
        decreases ring@.len() - j,
    {
        verts.push(WorldPoint { x: ring[j].lon, y: ring[j].lat });
        proof {
            assert(exterior_ring(*f)[j as int] == (WorldPoint {
                x: ring@[j as int].lon,
                y: ring@[j as int].lat,
            }));
            assert(verts@ =~= exterior_ring(*f).take(j + 1));
        }
        j = j + 1;
    }
    proof {
        assert(verts@ =~= exterior_ring(*f));
    }
    is_point_in_polygon(&p, &verts)
}

/// The first feature of the list whose exterior ring contains the point,
/// scanning from the front.
pub open spec fn clicked_spec(fs: Seq<&MapFeature>, p: WorldPoint) -> Option<&MapFeature>
    decreases fs.len(),
{
    if fs.len() == 0 {
        None
    } else if feature_hit(*fs[0], p) {
        Some(fs[0])
    } else {
        clicked_spec(fs.drop_first(), p)
    }
}

/// Find the feature under a click: the first of the given render list
/// whose exterior ring contains the point.
pub fn find_clicked<'a>(features: &Vec<&'a MapFeature>, p: WorldPoint) -> (r: Option<
    &'a MapFeature,
>)
    requires
        in_coord_range(p),
        forall|i: int, j: int|
            0 <= i < features@.len() && 0 <= j < exterior_ring(*features@[i]).len()
                ==> in_coord_range(#[trigger] exterior_ring(*features@[i])[j]),
    ensures
        r == clicked_spec(features@, p),
{
    let mut i: usize = 0;
    proof {
        assert(features@.skip(0) =~= features@);
    }
    while i < features.len()
        invariant
            i <= features@.len(),
            in_coord_range(p),
            forall|t: int, j: int|
                0 <= t < features@.len() && 0 <= j < exterior_ring(*features@[t]).len()
                    ==> in_coord_range(#[trigger] exterior_ring(*features@[t])[j]),
            clicked_spec(features@, p) == clicked_spec(features@.skip(i as int), p),
        decreases features@.len() - i,
    {
        proof {
            assert(features@.skip(i as int)[0] == features@[i as int]);
            assert(features@.skip(i as int).drop_first() =~= features@.skip(i + 1));
        }
        if feature_contains_point(features[i], p) {
            return Some(features[i]);
        }
        i = i + 1;
    }
    proof {
        assert(features@.skip(features@.len() as int) =~= Seq::<&MapFeature>::empty());
    }
    None
}

} // verus!
