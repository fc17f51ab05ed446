//! Routing parameters: transport mode and objective.
use vstd::prelude::*;
use crate::osm::{Highway, str_equal};

verus! {

/// A transport mode; the last three stand for sets of the first three.
#[derive(Debug, Clone, Copy, PartialEq, Eq, Structural, Hash)]
pub enum Transport {
    Car,
    Bike,
    Walk,
    All,
    CarBike,
    BikeWalk,
}

/// What the search minimises.
#[derive(Debug, Clone, Copy, PartialEq, Eq, Structural, Hash)]
pub enum Routing {
    Time,
    Distance,
}

/// The query parameters of one search.
#[derive(Debug, Clone, Copy, PartialEq, Eq, Structural)]
pub struct Params {
    pub transport: Transport,
    pub routing: Routing,
    pub avoid_unpaved: bool,
}

impl Params {
    pub fn new(transport: Transport, routing: Routing, avoid_unpaved: bool) -> (r: Self)
        ensures
            r.transport == transport,
            r.routing == routing,
            r.avoid_unpaved == avoid_unpaved,
    {
        Self { transport, routing, avoid_unpaved }
    }
}

/// The mode named in a request (snake case).
pub open spec fn transport_named(s: Seq<char>) -> Option<Transport> {
    if s == "car"@ {
        Some(Transport::Car)
    } else if s == "bike"@ {
        Some(Transport::Bike)
    } else if s == "walk"@ {
        Some(Transport::Walk)
    } else if s == "all"@ {
        Some(Transport::All)
    } else if s == "car_bike"@ {
        Some(Transport::CarBike)
    } else if s == "bike_walk"@ {
        Some(Transport::BikeWalk)
    } else {
        None
    }
}

/// The objective named in a request (snake case).
pub open spec fn routing_named(s: Seq<char>) -> Option<Routing> {
    if s == "time"@ {
        Some(Routing::Time)
    } else if s == "distance"@ {
        Some(Routing::Distance)
    } else {
        None
    }
}

impl Routing {
    /// Reads an objective's name: `time` or `distance`.
    pub fn from_name(name: &str) -> (r: Option<Routing>)
        ensures
            r == routing_named(name@),
    {
        proof {
            reveal_strlit("time");
            reveal_strlit("distance");
        }
        if str_equal(name, "time") {
            Some(Routing::Time)
        } else if str_equal(name, "distance") {
            Some(Routing::Distance)
        } else {
            None
        }
    }
}

/// The modes that may travel a road class.
pub open spec fn transport_of(h: Highway) -> Transport {
    match h {
        Highway::Residential | Highway::Tertiary | Highway::Unclassified | Highway::Service
        | Highway::LivingStreet | Highway::TertiaryLink => Transport::All,
        Highway::Secondary | Highway::SecondaryLink | Highway::Primary
        | Highway::PrimaryLink => Transport::CarBike,
        Highway::Track | Highway::Road => Transport::BikeWalk,
        Highway::Motorway | Highway::MotorwayLink | Highway::Trunk
        | Highway::TrunkLink => Transport::Car,
        Highway::Cycleway => Transport::Bike,
        Highway::Pedestrian | Highway::Footway | Highway::Path | Highway::Steps => Transport::Walk,
    }
}

/// Whether the set of modes `t` includes `other`.
pub open spec fn transport_contains(t: Transport, other: Transport) -> bool {
    t == Transport::All || t == other || (t == Transport::CarBike && (other == Transport::Car
        || other == Transport::Bike)) || (t == Transport::BikeWalk && (other == Transport::Bike
        || other == Transport::Walk))
}

/// Car, bike or walk: a single mode rather than a set.
pub open spec fn is_atomic(t: Transport) -> bool {
    t == Transport::Car || t == Transport::Bike || t == Transport::Walk
}

impl Transport {
    pub fn from(highway: Highway) -> (r: Transport)
        ensures
            r == transport_of(highway),
    {
        match highway {
            Highway::Residential | Highway::Tertiary | Highway::Unclassified | Highway::Service
            | Highway::LivingStreet | Highway::TertiaryLink => Transport::All,
            Highway::Secondary | Highway::SecondaryLink | Highway::Primary
            | Highway::PrimaryLink => Transport::CarBike,
            Highway::Track | Highway::Road => Transport::BikeWalk,
            Highway::Motorway | Highway::MotorwayLink | Highway::Trunk
            | Highway::TrunkLink => Transport::Car,
            Highway::Cycleway => Transport::Bike,
            Highway::Pedestrian | Highway::Footway | Highway::Path
            | Highway::Steps => Transport::Walk,
        }
    }

    /// Reads a mode's name: `car`, `bike`, `walk`, `all`, `car_bike` or
    /// `bike_walk`.
    pub fn from_name(name: &str) -> (r: Option<Transport>)
        ensures
            r == transport_named(name@),
    {
        proof {
            reveal_strlit("car");
            reveal_strlit("bike");
            reveal_strlit("walk");
            reveal_strlit("all");
            reveal_strlit("car_bike");
            reveal_strlit("bike_walk");
        }
        if str_equal(name, "car") {
            Some(Transport::Car)
        } else if str_equal(name, "bike") {
            Some(Transport::Bike)
        } else if str_equal(name, "walk") {
            Some(Transport::Walk)
        } else if str_equal(name, "all") {
            Some(Transport::All)
        } else if str_equal(name, "car_bike") {
            Some(Transport::CarBike)
        } else if str_equal(name, "bike_walk") {
            Some(Transport::BikeWalk)
        } else {
            None
        }
    }

    /// Whether this is a single mode, one a route can be travelled by.
    pub fn is_single(self) -> (r: bool)
        ensures
            r == is_atomic(self),
    {
        self == Transport::Car || self == Transport::Bike || self == Transport::Walk
    }

    pub fn contains(self, other: Self) -> (r: bool)
        ensures
            r == transport_contains(self, other),
    {
        self == Transport::All || self == other || (self == Transport::CarBike && (other
            == Transport::Car || other == Transport::Bike)) || (self == Transport::BikeWalk && (
        other == Transport::Bike || other == Transport::Walk))
    }
}

} // verus!
