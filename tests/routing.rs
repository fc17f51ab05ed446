use osm_router::curvature::{radii, score, total_score};
use osm_router::edge::{Edge, Meta};
use osm_router::graph::Graph;
use osm_router::node::{Meta as NodeMeta, Node};
use osm_router::options::{Params, Routing, Transport};
use std::io::Write;
use osm_router::osm::{is_oneway, parse_speed, Coordinates, Highway, Kmh, Surface};
use osm_router::pbf::{grade, Pbf};
use osm_router::queue::{MinQueue, RouterNode};
use osm_router::route::Route;
use osm_router::router::{RouteError, Router};
use osm_router::srtm::{filename, sample, unzip, TileError};

fn haversine(a: &Coordinates, b: &Coordinates) -> f64 {
    let (alat, alon) = (a.lat as f64 * 1e-7, a.lon as f64 * 1e-7);
    let (blat, blon) = (b.lat as f64 * 1e-7, b.lon as f64 * 1e-7);
    let theta1 = alon.to_radians();
    let theta2 = blon.to_radians();
    let delta_theta = (blon - alon).to_radians();
    let delta_lambda = (blat - alat).to_radians();
    let x = (delta_theta / 2.0).sin().powi(2)
        + theta1.cos() * theta2.cos() * (delta_lambda / 2.0).sin().powi(2);
    6_371_000.0 * 2.0 * x.sqrt().asin()
}

fn meters(a: &Coordinates, b: &Coordinates) -> u32 {
    haversine(a, b).round() as u32
}

/// A way: node ids, road class, surface, one-way.
struct Way(Vec<i64>, Highway, Option<Surface>, bool);

/// Builds a graph from nodes `(id, lat, lon)` in degrees and ways.
fn build(nodes: &[(i64, f64, f64)], ways: &[Way]) -> Graph {
    let mut pbf = Pbf::new();
    let mut edges: Vec<Edge> = Vec::new();
    for way in ways {
        let meta = Meta::new(Some(way.1), None, way.2).unwrap();
        pbf.add_way(&way.0, meta, way.3, &mut edges);
    }
    let mut placed: Vec<Option<Node>> = vec![None; pbf.number_nodes()];
    for &(id, lat, lon) in nodes {
        if let Some(i) = pbf.node_index(id) {
            let c = Coordinates::new((lat / 1e-7).round() as i32, (lon / 1e-7).round() as i32);
            placed[i] = Some(Node::new(id, c, NodeMeta::new(None)));
        }
    }
    let placed: Vec<Node> = placed.into_iter().map(|n| n.unwrap()).collect();
    let distances: Vec<u32> = edges
        .iter()
        .map(|e| meters(&placed[e.source_index].coordinates, &placed[e.target_index].coordinates))
        .collect();
    pbf.create_graph(placed, edges, &distances)
}

fn at(lat: f64, lon: f64) -> Coordinates {
    Coordinates::new((lat / 1e-7).round() as i32, (lon / 1e-7).round() as i32)
}

fn route(graph: &Graph, params: Params, from: Coordinates, to: Coordinates) -> Result<Route, RouteError> {
    let n = graph.num_nodes();
    let from_dist: Vec<u32> = (0..n).map(|i| meters(&from, graph.coordinates(i))).collect();
    let to_dist: Vec<u32> = (0..n).map(|i| meters(&to, graph.coordinates(i))).collect();
    let start = graph.nearest_neighbor(&from, &params, &from_dist)?;
    let goal = graph.nearest_neighbor(&to, &params, &to_dist)?;
    let goal_at = *graph.coordinates(goal);
    let estimates: Vec<u32> = (0..n).map(|i| meters(graph.coordinates(i), &goal_at)).collect();
    Router::new(graph, params).shortest_path(start, goal, &estimates)
}

fn ids(route: &Route) -> Vec<i64> {
    route.nodes.iter().map(|n| n.id).collect()
}

#[test]
fn min_priority_queue() {
    let mut queue = MinQueue::with_capacity(5);
    queue.push(RouterNode::new(3, 3, 0));
    queue.push(RouterNode::new(1, 1, 0));
    queue.push(RouterNode::new(20, 20, 0));
    queue.push(RouterNode::new(2, 2, 0));
    queue.push(RouterNode::new(5, 5, 0));

    assert_eq!(queue.pop().unwrap().cost, 1);
    assert_eq!(queue.pop().unwrap().cost, 2);
    assert_eq!(queue.pop().unwrap().cost, 3);
    assert_eq!(queue.pop().unwrap().cost, 5);
    queue.push(RouterNode::new(15, 15, 0));
    assert_eq!(queue.pop().unwrap().cost, 15);
    assert_eq!(queue.pop().unwrap().cost, 20);
}

#[test]
fn time() {
    assert_eq!(14, Kmh::new(50).time(200));
    assert_eq!(36, Kmh::new(20).time(200));
    assert_eq!(144, Kmh::new(5).time(200));
}

#[test]
fn queue_orders_by_cost_plus_heuristic() {
    let mut queue = MinQueue::new();
    queue.push(RouterNode::new(0, 10, 0));
    queue.push(RouterNode::new(1, 2, 20));
    queue.push(RouterNode::new(2, 5, 1));
    assert_eq!(queue.pop().unwrap().index, 2);
    assert_eq!(queue.pop().unwrap().index, 0);
    assert_eq!(queue.pop().unwrap().index, 1);
    assert!(queue.pop().is_none());
    assert!(queue.is_empty());
}

#[test]
fn time_edge_cases() {
    assert_eq!(Kmh::new(0).time(0), 0);
    assert_eq!(Kmh::new(0).time(5), u32::MAX);
    assert_eq!(Kmh::new(36).time(0), 0);
    assert_eq!(Kmh::new(36).time(1000), 100);
    assert_eq!(Kmh::new(1).time(u32::MAX), u32::MAX);
}

#[test]
fn transport_containment() {
    assert!(Transport::All.contains(Transport::Car));
    assert!(!Transport::CarBike.contains(Transport::Walk));
    assert!(!Transport::BikeWalk.contains(Transport::Car));
    assert!(Transport::BikeWalk.contains(Transport::Walk));
    assert!(Transport::Walk.contains(Transport::Walk));
    assert!(!Transport::Walk.contains(Transport::Bike));
    assert_eq!(Transport::from(Highway::Motorway), Transport::Car);
    assert_eq!(Transport::from(Highway::Footway), Transport::Walk);
    assert_eq!(Transport::from(Highway::Track), Transport::BikeWalk);
}

fn edge(highway: Highway, surface: Option<Surface>) -> Edge {
    let mut e = Edge::new(0, 1, Meta::new(Some(highway), None, surface).unwrap());
    e.distance = Some(200);
    e
}

#[test]
fn paved_roads() {
    for h in [Highway::Motorway, Highway::Trunk, Highway::Primary, Highway::SecondaryLink] {
        assert!(edge(h, None).is_paved());
        assert!(edge(h, Some(Surface::Gravel)).is_paved());
    }
    assert!(edge(Highway::Residential, Some(Surface::Asphalt)).is_paved());
    assert!(edge(Highway::Residential, Some(Surface::Concrete)).is_paved());
    assert!(edge(Highway::Track, Some(Surface::Paved)).is_paved());
    assert!(!edge(Highway::Residential, Some(Surface::Gravel)).is_paved());
    assert!(!edge(Highway::Residential, None).is_paved());
}

#[test]
fn relevance_depends_on_inputs_only() {
    let gravel = edge(Highway::Residential, Some(Surface::Gravel));
    let car = Params::new(Transport::Car, Routing::Distance, false);
    let paved_only = Params::new(Transport::Car, Routing::Distance, true);
    assert!(gravel.is_relevant(&car));
    assert!(gravel.is_relevant(&car));
    assert!(!gravel.is_relevant(&paved_only));
    assert!(!edge(Highway::Cycleway, None).is_relevant(&car));
}

#[test]
fn edge_cost_and_time() {
    let e = edge(Highway::Residential, None);
    assert_eq!(e.cost(Transport::Car, Routing::Time), 24);
    assert_eq!(e.cost(Transport::Car, Routing::Distance), 200);
    assert_eq!(e.cost(Transport::Bike, Routing::Time), 200);
    assert_eq!(e.time(Transport::Car), 24);
    assert_eq!(e.time(Transport::Bike), 36);
    assert_eq!(e.time(Transport::Walk), 144);
}

#[test]
fn default_speeds() {
    assert_eq!(Highway::Motorway.default_speed(), Some(Kmh::new(120)));
    assert_eq!(Highway::Tertiary.default_speed(), Some(Kmh::new(100)));
    assert_eq!(Highway::TrunkLink.default_speed(), Some(Kmh::new(60)));
    assert_eq!(Highway::PrimaryLink.default_speed(), Some(Kmh::new(50)));
    assert_eq!(Highway::LivingStreet.default_speed(), Some(Kmh::new(5)));
    assert_eq!(Highway::Footway.default_speed(), Some(Kmh::new(30)));
}

#[test]
fn tags() {
    assert_eq!(Highway::from("living_street"), Some(Highway::LivingStreet));
    assert_eq!(Highway::from("highway"), None);
    assert_eq!(Surface::from("fine_gravel"), Some(Surface::FineGravel));
    assert_eq!(Surface::from("Gravel"), None);
    assert!(is_oneway(Some("yes")));
    assert!(!is_oneway(Some("no")));
    assert!(!is_oneway(None));
    assert_eq!(Kmh::from("50"), Some(Kmh::new(50)));
    assert_eq!(Kmh::from("+7"), Some(Kmh::new(7)));
    assert_eq!(Kmh::from("30 mph"), Some(Kmh::new(48)));
    assert_eq!(Kmh::from("200 mph"), Some(Kmh::new(255)));
    assert_eq!(Kmh::from("300"), None);
    assert_eq!(Kmh::from("30 kmh"), None);
    assert_eq!(Kmh::from("none"), None);
    assert_eq!(parse_speed(""), None);
    assert_eq!(parse_speed("255"), Some(255));
    assert_eq!(parse_speed("256"), None);
}

#[test]
fn way_meta() {
    let m = Meta::new(Some(Highway::Primary), None, None).unwrap();
    assert_eq!(m.max_speed, Kmh::new(100));
    let m = Meta::new(Some(Highway::Primary), Some(Kmh::new(70)), Some(Surface::Asphalt)).unwrap();
    assert_eq!(m.max_speed, Kmh::new(70));
    assert_eq!(m.surface, Some(Surface::Asphalt));
    assert!(Meta::new(None, Some(Kmh::new(70)), None).is_err());
}

#[test]
fn cells() {
    let c = Coordinates::new(475_000_000, -115_500_000);
    assert_eq!(c.lat_rounded(), 475);
    assert_eq!(c.lon_rounded(), -116);
    assert!(c.same_cell(&Coordinates::new(474_600_000, -115_600_000)));
    assert!(!c.same_cell(&Coordinates::new(474_400_000, -115_600_000)));
}

#[test]
fn graph_layout() {
    let g = build(
        &[(10, 0.0, 0.0), (11, 0.0, 0.001), (12, 0.0, 0.002), (13, 0.001, 0.001)],
        &[
            Way(vec![10, 11, 12], Highway::Residential, None, false),
            Way(vec![13, 11], Highway::Service, None, true),
        ],
    );
    assert_eq!(g.num_nodes(), 4);
    assert_eq!(g.num_edges(), 5);
    for i in 0..g.num_nodes() {
        let (first, end) = g.edge_range(i);
        assert!(first <= end);
        for e in g.edges(i) {
            assert_eq!(e.source_index, i);
        }
    }
    assert_eq!(g.edge_range(g.num_nodes() - 1).1, g.num_edges());
    let mut last = (0, 0);
    for k in 0..g.num_edges() {
        let e = g.edge(k);
        assert!((e.source_index, e.target_index) >= last);
        last = (e.source_index, e.target_index);
        assert_eq!(e.distance, Some(111));
    }
    assert_eq!(g.edges(1).len(), 2);
    assert_eq!(g.edges(3).len(), 1);
}

#[test]
fn trivial_graph() {
    let g = build(
        &[(1, 0.0, 0.0), (2, 0.0, 0.001), (3, 0.0, 0.002)],
        &[Way(vec![1, 2, 3], Highway::Residential, None, false)],
    );
    let params = Params::new(Transport::Car, Routing::Distance, false);
    let r = route(&g, params, at(0.0, 0.0), at(0.0, 0.002)).unwrap();
    assert_eq!(r.edges.len(), 2);
    assert_eq!(r.nodes.len(), 3);
    assert_eq!(ids(&r), vec![1, 2, 3]);
    assert_eq!(r.distance, 222);
    assert_eq!(r.time, 26);
    assert_eq!(r.intersections, 0);
    let sum: u32 = r.edges.iter().map(|e| e.distance.unwrap()).sum();
    assert_eq!(sum, r.distance);
}

#[test]
fn branch_avoids_unpaved() {
    let nodes = [(1, 0.0, 0.0), (2, 0.0, 0.004), (3, 0.0005, 0.002), (4, 0.002, 0.002)];
    let ways = [
        Way(vec![1, 3, 2], Highway::Residential, Some(Surface::Gravel), false),
        Way(vec![1, 4, 2], Highway::Residential, Some(Surface::Asphalt), false),
    ];
    let g = build(&nodes, &ways);
    let paved = Params::new(Transport::Car, Routing::Distance, true);
    let r = route(&g, paved, at(0.0, 0.0), at(0.0, 0.004)).unwrap();
    assert_eq!(ids(&r), vec![1, 4, 2]);
    let any = Params::new(Transport::Car, Routing::Distance, false);
    let r = route(&g, any, at(0.0, 0.0), at(0.0, 0.004)).unwrap();
    assert_eq!(ids(&r), vec![1, 3, 2]);
}

#[test]
fn time_versus_distance() {
    let nodes = [(1, 0.0, 0.0), (2, 0.0, 0.01), (3, 0.003, 0.005)];
    let ways = [
        Way(vec![1, 3, 2], Highway::Primary, None, false),
        Way(vec![1, 2], Highway::Residential, None, false),
    ];
    let g = build(&nodes, &ways);
    let time = Params::new(Transport::Car, Routing::Time, false);
    let r = route(&g, time, at(0.0, 0.0), at(0.0, 0.01)).unwrap();
    assert_eq!(ids(&r), vec![1, 3, 2]);
    let distance = Params::new(Transport::Car, Routing::Distance, false);
    let r = route(&g, distance, at(0.0, 0.0), at(0.0, 0.01)).unwrap();
    assert_eq!(ids(&r), vec![1, 2]);
    assert_eq!(r.distance, 1112);
    assert_eq!(r.time, 133);
}

#[test]
fn mode_filter() {
    let nodes = [(1, 0.0, 0.0), (2, 0.0, 0.004), (3, 0.001, 0.002)];
    let ways = [
        Way(vec![1, 2], Highway::Motorway, None, false),
        Way(vec![1, 3, 2], Highway::Footway, None, false),
    ];
    let g = build(&nodes, &ways);
    let car = Params::new(Transport::Car, Routing::Distance, false);
    let r = route(&g, car, at(0.0, 0.0), at(0.0, 0.004)).unwrap();
    assert_eq!(ids(&r), vec![1, 2]);
    let walk = Params::new(Transport::Walk, Routing::Distance, false);
    let r = route(&g, walk, at(0.0, 0.0), at(0.0, 0.004)).unwrap();
    assert_eq!(ids(&r), vec![1, 3, 2]);
    let bike = Params::new(Transport::Bike, Routing::Distance, false);
    assert_eq!(route(&g, bike, at(0.0, 0.0), at(0.0, 0.004)).unwrap_err(), RouteError::NoTransportMatch);
}

#[test]
fn no_path_between_components() {
    let nodes = [(1, 0.0, 0.0), (2, 0.0, 0.001), (3, 0.01, 0.0), (4, 0.01, 0.001)];
    let ways = [
        Way(vec![1, 2], Highway::Residential, None, false),
        Way(vec![3, 4], Highway::Residential, None, false),
    ];
    let g = build(&nodes, &ways);
    let params = Params::new(Transport::Car, Routing::Distance, false);
    let err = route(&g, params, at(0.0, 0.0), at(0.01, 0.001)).unwrap_err();
    assert_eq!(err, RouteError::NoPath);
    assert_eq!(err.message(), "No path found");
}

#[test]
fn start_is_goal_and_off_map() {
    let g = build(
        &[(1, 0.0, 0.0), (2, 0.0, 0.001)],
        &[Way(vec![1, 2], Highway::Residential, None, false)],
    );
    let params = Params::new(Transport::Car, Routing::Distance, false);
    assert_eq!(route(&g, params, at(0.0, 0.0), at(0.0, 0.0001)).unwrap_err(), RouteError::StartIsGoal);
    assert_eq!(route(&g, params, at(0.0, 0.0), at(5.0, 5.0)).unwrap_err(), RouteError::PointNotOnMap);
    assert_eq!(RouteError::PointNotOnMap.message(), "Couldn't locate point on map");
}

#[test]
fn one_way_streets() {
    let g = build(
        &[(1, 0.0, 0.0), (2, 0.0, 0.001), (3, 0.0, 0.002)],
        &[Way(vec![1, 2, 3], Highway::Residential, None, true)],
    );
    assert_eq!(g.num_edges(), 2);
    let params = Params::new(Transport::Car, Routing::Distance, false);
    assert_eq!(ids(&route(&g, params, at(0.0, 0.0), at(0.0, 0.001)).unwrap()), vec![1, 2]);
    assert_eq!(route(&g, params, at(0.0, 0.001), at(0.0, 0.0)).unwrap_err(), RouteError::NoPath);
}

#[test]
fn intersections_are_counted() {
    let nodes = [(1, 0.0, 0.0), (2, 0.0, 0.001), (3, 0.0, 0.002), (4, 0.001, 0.001), (5, -0.001, 0.001)];
    let ways = [
        Way(vec![1, 2, 3], Highway::Residential, None, false),
        Way(vec![4, 2, 5], Highway::Residential, None, false),
    ];
    let g = build(&nodes, &ways);
    let params = Params::new(Transport::Walk, Routing::Distance, false);
    let r = route(&g, params, at(0.0, 0.0), at(0.0, 0.002)).unwrap();
    assert_eq!(ids(&r), vec![1, 2, 3]);
    assert_eq!(r.intersections, 2);
    assert_eq!(r.time, 160);
}

#[test]
fn merge_routes() {
    let g = build(
        &[(1, 0.0, 0.0), (2, 0.0, 0.001), (3, 0.0, 0.002)],
        &[Way(vec![1, 2, 3], Highway::Residential, None, false)],
    );
    let params = Params::new(Transport::Car, Routing::Distance, false);
    let mut a = route(&g, params, at(0.0, 0.0), at(0.0, 0.001)).unwrap();
    let b = route(&g, params, at(0.0, 0.001), at(0.0, 0.002)).unwrap();
    a.merge(b);
    assert_eq!(ids(&a), vec![1, 2, 3]);
    assert_eq!(a.edges.len(), 2);
    assert_eq!(a.distance, 222);
    assert_eq!(a.time, 26);
    let mut empty = Route::new();
    empty.merge(route(&g, params, at(0.0, 0.0), at(0.0, 0.001)).unwrap());
    assert_eq!(empty.nodes.len(), 1);
}

#[test]
fn grades() {
    let a = Node::new(1, at(0.0, 0.0), NodeMeta::new(Some(100_000)));
    let b = Node::new(2, at(0.0, 0.001), NodeMeta::new(Some(111_000)));
    let c = Node::new(3, at(0.0, 0.001), NodeMeta::new(None));
    assert_eq!(grade(&a, &b, 111), Some(10));
    assert_eq!(grade(&b, &a, 111), Some(10));
    assert_eq!(grade(&a, &b, 0), Some(255));
    assert_eq!(grade(&a, &a, 0), Some(0));
    assert_eq!(grade(&a, &c, 111), None);
}

#[test]
fn tile_names() {
    assert_eq!(filename(&at(47.5, 11.25)), "N47E011.hgt");
    assert_eq!(filename(&at(-4.5, -9.5)), "S05W010.hgt");
    assert_eq!(filename(&at(0.0, 120.0)), "N00E120.hgt");
}

#[test]
fn tile_samples() {
    let data = vec![0x01, 0x02, 0x80, 0x00, 0xff, 0xfe, 0x00, 0x07];
    assert_eq!(sample(&data, 2, 0, 0), Some(258));
    assert_eq!(sample(&data, 2, 0, 1), None);
    assert_eq!(sample(&data, 2, 1, 0), Some(-2));
    assert_eq!(sample(&data, 2, 1, 1), Some(7));
    assert_eq!(sample(&data, 2, 2, 0), None);
    assert_eq!(sample(&data, 2, -1, 0), None);
}

fn archive(name: &str, content: &[u8]) -> Vec<u8> {
    let mut writer = zip::ZipWriter::new(std::io::Cursor::new(Vec::new()));
    let options = zip::write::FileOptions::default().compression_method(zip::CompressionMethod::Deflated);
    writer.start_file(name, options).unwrap();
    writer.write_all(content).unwrap();
    writer.finish().unwrap().into_inner()
}

#[test]
fn unzip_tiles() {
    let raster = vec![0u8, 1, 2, 3, 4, 5, 6, 7];
    let zipped = archive("N47E011.hgt", &raster);
    assert_eq!(unzip(&zipped, "N47E011.hgt"), Ok(raster));
    assert_eq!(unzip(&zipped, "N48E011.hgt"), Err(TileError::MissingMember));
    assert_eq!(unzip(&vec![1, 2, 3], "N47E011.hgt"), Err(TileError::MissingMember));
}

#[test]
fn graph_from_parts() {
    let c = Coordinates::new(0, 0);
    let nodes = vec![Node::new(1, c, NodeMeta::new(None)), Node::new(2, c, NodeMeta::new(None))];
    let mut e = Edge::new(0, 1, Meta::new(Some(Highway::Road), None, None).unwrap());
    e.distance = Some(5);
    let g = Graph::from_parts(nodes.clone(), vec![0, 1, 1], vec![e]).unwrap();
    assert_eq!(g.edges(0).len(), 1);
    assert_eq!(g.edges(1).len(), 0);
    assert!(Graph::from_parts(nodes.clone(), vec![0, 1], vec![e]).is_none());
    assert!(Graph::from_parts(nodes.clone(), vec![0, 0, 1], vec![e]).is_none());
    assert!(Graph::from_parts(nodes.clone(), vec![1, 0, 1], vec![e]).is_none());
    let mut unset = e;
    unset.distance = None;
    assert!(Graph::from_parts(nodes, vec![0, 1, 1], vec![unset]).is_none());
}

#[test]
fn request_names() {
    assert_eq!(Transport::from_name("car"), Some(Transport::Car));
    assert_eq!(Transport::from_name("bike_walk"), Some(Transport::BikeWalk));
    assert_eq!(Transport::from_name("Car"), None);
    assert!(Transport::Walk.is_single());
    assert!(!Transport::All.is_single());
    assert_eq!(Routing::from_name("distance"), Some(Routing::Distance));
    assert_eq!(Routing::from_name("fast"), None);
}

#[test]
fn graph_round_trip_through_parts() {
    let g = build(
        &[(1, 0.0, 0.0), (2, 0.0, 0.001), (3, 0.001, 0.001)],
        &[
            Way(vec![1, 2, 3], Highway::Residential, Some(Surface::Asphalt), false),
            Way(vec![3, 1], Highway::Cycleway, None, true),
        ],
    );
    let nodes: Vec<Node> = (0..g.num_nodes()).map(|i| *g.node(i)).collect();
    let mut offsets: Vec<usize> = (0..g.num_nodes()).map(|i| g.edge_range(i).0).collect();
    offsets.push(g.num_edges());
    let edges: Vec<Edge> = (0..g.num_edges()).map(|k| *g.edge(k)).collect();
    let back = Graph::from_parts(nodes.clone(), offsets.clone(), edges.clone()).unwrap();
    assert_eq!(back.num_nodes(), g.num_nodes());
    assert_eq!(back.num_cells(), g.num_cells());
    for i in 0..g.num_nodes() {
        assert_eq!(back.node(i), g.node(i));
        assert_eq!(back.edge_range(i), g.edge_range(i));
        assert_eq!(back.edges(i), g.edges(i));
    }
}

fn angle(a: &Coordinates, b: &Coordinates, c: &Coordinates) -> Option<u32> {
    let (x, y, z) = (haversine(b, c), haversine(a, b), haversine(a, c));
    let radians = ((x * x + y * y - z * z) / (2.0 * x * y)).clamp(-1.0, 1.0).acos();
    if radians.is_normal() { Some(radians.to_degrees().floor() as u32) } else { None }
}

#[test]
fn curvature_of_straight_and_hairpin_routes() {
    let straight = [at(0.0, 0.0), at(0.0, 0.001), at(0.0, 0.002)];
    let inner = vec![angle(&straight[0], &straight[1], &straight[2])];
    assert_eq!(inner, vec![Some(180)]);
    let r = radii(&inner);
    assert_eq!(r.len(), 3);
    assert_eq!(total_score(&r), 0);

    let hairpin = [at(0.0, 0.0), at(0.0, 0.001), at(0.0001, 0.0)];
    let inner = vec![angle(&hairpin[0], &hairpin[1], &hairpin[2])];
    assert!(inner[0].unwrap() < 160);
    let r = radii(&inner);
    assert_eq!(r, vec![inner[0], inner[0], inner[0]]);
    assert_eq!(total_score(&r), 18);

    assert_eq!(radii(&vec![]), vec![None, None]);
    assert_eq!(radii(&vec![Some(100), Some(165), Some(172)]), vec![Some(100), Some(100), Some(165), Some(172), Some(172)]);
    assert_eq!(score(Some(159)), 6);
    assert_eq!(score(Some(160)), 2);
    assert_eq!(score(Some(170)), 1);
    assert_eq!(score(Some(175)), 0);
    assert_eq!(score(None), 0);
}
