//! Directed edges and the rules that decide their cost and relevance.
use vstd::prelude::*;
use crate::options::{
    Params, Routing, Transport, is_atomic, transport_contains, transport_of,
};
use crate::osm::{Highway, Kmh, Surface, default_speed_of, travel_time};

verus! {

/// What an edge inherits from its way, and its grade.
#[derive(Debug, Clone, Copy, PartialEq, Eq, Structural)]
pub struct Meta {
    pub grade: Option<u8>,
    pub max_speed: Kmh,
    pub highway: Highway,
    pub surface: Option<Surface>,
}

impl Meta {
    /// The meta data of a way with the given tags: a way without a road class
    /// is refused; without a speed limit it gets its class's default speed.
    pub fn new(highway: Option<Highway>, max_speed: Option<Kmh>, surface: Option<Surface>) -> (r:
        Result<Self, &'static str>)
        ensures
            highway.is_none() ==> r.is_err(),
            highway.is_some() ==> r == Ok::<Meta, &'static str>(
                Meta {
                    grade: None,
                    max_speed: match max_speed {
                        Some(k) => k,
                        None => Kmh { speed: default_speed_of(highway.unwrap()) },
                    },
                    highway: highway.unwrap(),
                    surface,
                },
            ),
    {
        match highway {
            None => Err("Way is not a highway"),
            Some(h) => {
                let max_speed = match max_speed {
                    Some(k) => k,
                    None => h.default_speed().unwrap(),
                };
                Ok(Self { grade: None, max_speed, highway: h, surface })
            },
        }
    }
}

/// A directed edge between two node indices.
#[derive(Debug, Clone, Copy, PartialEq, Eq, Structural)]
pub struct Edge {
    pub source_index: usize,
    pub target_index: usize,
    pub distance: Option<u32>,
    pub meta: Meta,
}

/// The length in meters of an edge whose distance has been set.
pub open spec fn edge_distance(e: Edge) -> int {
    e.distance.unwrap() as int
}

/// Seconds to travel an edge by `mode`: cars at the edge's speed, bikes at 20
/// and walkers at 5 km/h.
pub open spec fn edge_time(e: Edge, mode: Transport) -> int {
    match mode {
        Transport::Car => travel_time(e.meta.max_speed.speed as int, edge_distance(e)),
        Transport::Bike => travel_time(20, edge_distance(e)),
        _ => travel_time(5, edge_distance(e)),
    }
}

/// The search cost of an edge: seconds for cars routed by time, meters
/// otherwise.
pub open spec fn edge_cost(e: Edge, mode: Transport, routing: Routing) -> int {
    if mode == Transport::Car && routing == Routing::Time {
        travel_time(e.meta.max_speed.speed as int, edge_distance(e))
    } else {
        edge_distance(e)
    }
}

/// Trunk-level roads and their links count as paved whatever their surface;
/// other roads only with an asphalt, concrete or paved surface.
pub open spec fn is_paved_road(highway: Highway, surface: Option<Surface>) -> bool {
    match highway {
        Highway::Motorway | Highway::Trunk | Highway::Primary | Highway::Secondary
        | Highway::Tertiary | Highway::MotorwayLink | Highway::TrunkLink | Highway::PrimaryLink
        | Highway::SecondaryLink | Highway::TertiaryLink => true,
        _ => match surface {
            Some(Surface::Asphalt) | Some(Surface::Concrete) | Some(Surface::Paved) => true,
            _ => false,
        },
    }
}

/// Whether a search with `params` may use the edge.
pub open spec fn relevant(e: Edge, params: Params) -> bool {
    transport_contains(transport_of(e.meta.highway), params.transport) && (!params.avoid_unpaved
        || is_paved_road(e.meta.highway, e.meta.surface))
}

impl Edge {
    /// An edge whose distance is not yet known.
    pub fn new(source_index: usize, target_index: usize, meta: Meta) -> (r: Self)
        ensures
            r == (Edge { source_index, target_index, distance: None, meta }),
    {
        Self { source_index, target_index, distance: None, meta }
    }

    pub fn cost(&self, mode: Transport, routing: Routing) -> (r: u32)
        requires
            self.distance.is_some(),
        ensures
            r == edge_cost(*self, mode, routing),
    {
        if mode == Transport::Car && routing == Routing::Time {
            self.meta.max_speed.time(self.distance())
        } else {
            self.distance()
        }
    }

    pub fn time(&self, mode: Transport) -> (r: u32)
        requires
            self.distance.is_some(),
            is_atomic(mode),
        ensures
            r == edge_time(*self, mode),
    {
        match mode {
            Transport::Car => self.meta.max_speed.time(self.distance()),
            Transport::Bike => Kmh::new(20).time(self.distance()),
            _ => Kmh::new(5).time(self.distance()),
        }
    }

    pub fn distance(&self) -> (r: u32)
        requires
            self.distance.is_some(),
        ensures
            r == edge_distance(*self),
    {
        self.distance.unwrap()
    }

    pub fn transport(&self) -> (r: Transport)
        ensures
            r == transport_of(self.meta.highway),
    {
        Transport::from(self.meta.highway)
    }

    pub fn is_paved(&self) -> (r: bool)
        ensures
            r == is_paved_road(self.meta.highway, self.meta.surface),
    {
        match self.meta.highway {
            Highway::Motorway | Highway::Trunk | Highway::Primary | Highway::Secondary
            | Highway::Tertiary | Highway::MotorwayLink | Highway::TrunkLink
            | Highway::PrimaryLink | Highway::SecondaryLink | Highway::TertiaryLink => {
                return true;
            },
            _ => {},
        }
        match self.meta.surface {
            Some(Surface::Asphalt) | Some(Surface::Concrete) | Some(Surface::Paved) => true,
            _ => false,
        }
    }

    pub fn is_relevant(&self, params: &Params) -> (r: bool)
        ensures
            r == relevant(*self, *params),
    {
        let matches_transport = self.transport().contains(params.transport);
        if params.avoid_unpaved {
            matches_transport && self.is_paved()
        } else {
            matches_transport
        }
    }
}

/// Relevance depends on the edge's road class and surface and on the
/// parameters alone: two edges that agree on those, asked with equal
/// parameters, get the same answer.
pub proof fn lemma_relevance_is_pure(a: Edge, b: Edge, p: Params, q: Params)
    requires
        a.meta.highway == b.meta.highway,
        a.meta.surface == b.meta.surface,
        p == q,
    ensures
        relevant(a, p) == relevant(b, q),
{
}

/// Trunk-level roads and their links are paved whatever their surface; any
/// other road is paved exactly when its surface is asphalt, concrete or paved.
pub proof fn lemma_paved_classes(h: Highway, s: Option<Surface>)
    ensures
        (h == Highway::Motorway || h == Highway::Trunk || h == Highway::Primary || h
            == Highway::Secondary || h == Highway::Tertiary || h == Highway::MotorwayLink || h
            == Highway::TrunkLink || h == Highway::PrimaryLink || h == Highway::SecondaryLink || h
            == Highway::TertiaryLink) ==> is_paved_road(h, s),
        !(h == Highway::Motorway || h == Highway::Trunk || h == Highway::Primary || h
            == Highway::Secondary || h == Highway::Tertiary || h == Highway::MotorwayLink || h
            == Highway::TrunkLink || h == Highway::PrimaryLink || h == Highway::SecondaryLink || h
            == Highway::TertiaryLink) ==> (is_paved_road(h, s) <==> (s == Some(Surface::Asphalt)
            || s == Some(Surface::Concrete) || s == Some(Surface::Paved))),
{
}

} // verus!
