//! The per-frame orchestration state: the feature store, the coverage
//! index and the redraw flags, with the decisions of one viewport tick.
//!
//! The caller reports the visible world rectangle (and its geographic
//! counterpart, since the planar projection runs outside this crate);
//! `plan_fetch` answers with the query document to dispatch, if any, and
//! records the rectangle as requested the moment a fetch is decided, so
//! the same region is never requested twice — even while the first fetch
//! is still in flight.  When no filter is enabled nothing is dispatched
//! and the coverage index stays untouched, so the region can still be
//! fetched later.  `apply_fetch_result` merges what a fetch brought back.

use vstd::prelude::*;
use crate::coverage::SpatialIndex;
use crate::coverage::rect_key;
use crate::feature::FeatureStore;
use crate::feature::MapFeature;
use crate::feature::merge_spec;
use crate::geom::GeoRect;
use crate::geom::WorldSpaceRect;
use crate::query::build_overpass_query;
use crate::query::clauses_spec;
use crate::query::doc_spec;
use crate::settings::SettingsOverlay;
use crate::settings::keys_canonical;

verus! {

/// Everything the map keeps between frames.
pub struct MapBundle {
    pub features: FeatureStore,
    pub spatial_index: SpatialIndex,
    pub respawn: bool,
    pub get_more_data: bool,
}

impl MapBundle {
    /// Both stores are in their own good states.
    pub open spec fn inv(self) -> bool {
        self.features.inv() && self.spatial_index.wf()
    }

    pub fn new() -> (b: MapBundle)
        ensures
            b.inv(),
            b.features.features_spec().len() == 0,
            b.spatial_index.rects() == vstd::multiset::Multiset::<(i64, i64, i64, i64)>::empty(),
            !b.respawn,
            !b.get_more_data,
    {
        MapBundle {
            features: FeatureStore::new(),
            spatial_index: SpatialIndex::new(),
            respawn: false,
            get_more_data: false,
        }
    }

    /// One viewport tick: decide whether the visible rectangle needs a
    /// fetch, and if so build the query document and record the rectangle
    /// as requested.  `view_geo` is the geographic box of `viewport`, as
    /// the caller's projection produced it.
    ///
    /// A covered rectangle, and a configuration without any enabled
    /// filter, both yield `None` and leave every part of the state
    /// untouched.
    pub fn plan_fetch(
        &mut self,
        viewport: WorldSpaceRect,
        view_geo: GeoRect,
        settings: &SettingsOverlay,
    ) -> (query: Option<String>)
        requires
            old(self).inv(),
            viewport.wf(),
            viewport.in_tree_range(),
            view_geo.wf(),
            keys_canonical(settings.categories@),
        ensures
            final(self).inv(),
            final(self).features == old(self).features,
            final(self).respawn == old(self).respawn,
            final(self).get_more_data == old(self).get_more_data,
            old(self).spatial_index.covers(viewport) ==> query is None
                && final(self).spatial_index.rects() == old(self).spatial_index.rects(),
            !old(self).spatial_index.covers(viewport) && clauses_spec(
                seq![view_geo],
                settings.categories@,
            ).len() == 0 ==> query is None
                && final(self).spatial_index.rects() == old(self).spatial_index.rects(),
            !old(self).spatial_index.covers(viewport) && clauses_spec(
                seq![view_geo],
                settings.categories@,
            ).len() > 0 ==> query is Some && (query->0)@ == doc_spec(
                clauses_spec(seq![view_geo], settings.categories@),
            ) && final(self).spatial_index.rects() == old(self).spatial_index.rects().insert(
                rect_key(viewport),
            ),
            query is Some ==> final(self).spatial_index.covers(viewport),
    {
        if self.spatial_index.is_covered(&viewport) {
            return None;
        }
        let mut bounds: Vec<GeoRect> = Vec::new();
        bounds.push(view_geo);
        proof {
            assert(bounds@ =~= seq![view_geo]);
        }
        match build_overpass_query(&bounds, settings) {
            None => None,
            Some(query) => {
                self.spatial_index.insert(viewport);
                Some(query)
            },
        }
    }

    /// A fetch completed: merge its features into the store (duplicates by
    /// id are dropped, the first arrival wins) and ask for a redraw.
    /// Returns how many features were actually added.
    pub fn apply_fetch_result(&mut self, fetched: Vec<MapFeature>) -> (added: usize)
        requires
            old(self).inv(),
            forall|i: int| 0 <= i < fetched@.len() ==> (#[trigger] fetched@[i]).wf(),
        ensures
            final(self).inv(),
            final(self).features.features_spec() == merge_spec(
                old(self).features.features_spec(),
                fetched@,
            ),
            final(self).spatial_index.rects() == old(self).spatial_index.rects(),
            final(self).respawn,
            final(self).get_more_data == old(self).get_more_data,
            added == final(self).features.features_spec().len() - old(self).features.features_spec().len(),
    {
        let added = self.features.merge(fetched);
        self.respawn = true;
        added
    }
}

} // verus!
