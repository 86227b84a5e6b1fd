//! Viewport-driven incremental spatial data cache for a pannable vector map.
//!
//! The crate tracks which regions of the world plane have already been
//! requested from a remote geodata service, deduplicates the features that
//! come back, builds the textual query documents, and decides how each
//! feature is styled.  Coordinates are fixed-point integers: world-plane
//! units on one axis pair, degrees scaled by a million on the other.

pub mod geom;
pub mod coverage;
pub mod feature;
pub mod settings;
pub mod query;
pub mod style;
pub mod bundle;
