//! Multi-modal routing over a road network: a compact graph of OpenStreetMap
//! ways, nearest-node snapping on a coarse spatial grid, A* search and route
//! reconstruction.
//!
//! Everything here works on fixed-point coordinates and integer meters and
//! seconds; great-circle distances are handed in by the caller.
pub mod osm;
pub mod options;
pub mod edge;
pub mod node;
pub mod graph;
pub mod grid;
pub mod queue;
pub mod route;
pub mod router;
pub mod srtm;
pub mod pbf;
pub mod curvature;
