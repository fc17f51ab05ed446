//! Graph nodes.
use vstd::prelude::*;
use crate::osm::Coordinates;

verus! {

/// Elevation of a node, in millimeters above sea level.
#[derive(Debug, Clone, Copy, PartialEq, Eq, Structural)]
pub struct Meta {
    pub elevation: Option<i32>,
}

impl Meta {
    pub fn new(elevation: Option<i32>) -> (r: Self)
        ensures
            r.elevation == elevation,
    {
        Self { elevation }
    }
}

/// An OSM node: its id, position and elevation.
#[derive(Debug, Clone, Copy, PartialEq, Eq, Structural)]
pub struct Node {
    pub id: i64,
    pub coordinates: Coordinates,
    pub meta: Meta,
}

impl Node {
    pub fn new(id: i64, coordinates: Coordinates, meta: Meta) -> (r: Self)
        ensures
            r.id == id,
            r.coordinates == coordinates,
            r.meta == meta,
    {
        Self { id, coordinates, meta }
    }
}

} // verus!
