//! Routes and their reconstruction from a search's predecessor edges.
use vstd::prelude::*;
use crate::edge::{Edge, edge_distance, edge_time};
use crate::graph::Graph;
use crate::node::Node;
use crate::options::{Transport, is_atomic};

verus! {

/// Meters along a sequence of edges.
pub open spec fn total_distance(es: Seq<Edge>) -> int
    decreases es.len(),
{
    if es.len() == 0 {
        0
    } else {
        total_distance(es.drop_last()) + edge_distance(es.last())
    }
}

/// Seconds along a sequence of edges by `mode`.
pub open spec fn total_time(es: Seq<Edge>, mode: Transport) -> int
    decreases es.len(),
{
    if es.len() == 0 {
        0
    } else {
        total_time(es.drop_last(), mode) + edge_time(es.last(), mode)
    }
}

/// The side roads met on arriving over `e`: the target's outgoing edges beyond
/// one onward and one back, unless the target is the goal.
pub open spec fn branches(g: Graph, e: Edge, goal: int) -> int {
    let d = g.end_edge(e.target_index as int) - g.first_edge(e.target_index as int);
    if d > 2 && e.target_index != goal {
        d - 2
    } else {
        0
    }
}

/// Side roads met along a sequence of edges.
pub open spec fn total_branches(g: Graph, es: Seq<Edge>, goal: int) -> int
    decreases es.len(),
{
    if es.len() == 0 {
        0
    } else {
        total_branches(g, es.drop_last(), goal) + branches(g, es.last(), goal)
    }
}

/// The edges at the given positions of the edge array.
pub open spec fn path_edges(g: Graph, p: Seq<usize>) -> Seq<Edge> {
    p.map_values(|k: usize| g.edges_view()[k as int])
}

/// The nodes visited by the edges at positions `p`, starting at `start`.
pub open spec fn path_nodes(g: Graph, start: int, p: Seq<usize>) -> Seq<Node> {
    seq![g.nodes_view()[start]] + p.map_values(
        |k: usize| g.nodes_view()[g.edges_view()[k as int].target_index as int],
    )
}

/// The edge positions met walking the predecessor edges back from `cur` to
/// `start`, in forward order, taking at most `fuel` steps; `None` if the walk
/// breaks off, or does not reach `start` in time.
pub open spec fn walk(g: Graph, prev: Seq<Option<usize>>, start: int, cur: int, fuel: nat) -> Option<
    Seq<usize>,
>
    decreases fuel,
{
    if cur == start {
        Some(Seq::empty())
    } else if fuel == 0 || !(0 <= cur < prev.len()) {
        None
    } else {
        match prev[cur] {
            None => None,
            Some(k) => if k < g.edges_view().len() && g.edges_view()[k as int].target_index == cur {
                match walk(
                    g,
                    prev,
                    start,
                    g.edges_view()[k as int].source_index as int,
                    (fuel - 1) as nat,
                ) {
                    Some(p) => Some(p.push(k)),
                    None => None,
                }
            } else {
                None
            },
        }
    }
}

/// The edge at position `b` starts where the one at position `a` ends.
pub open spec fn linked(g: Graph, a: usize, b: usize) -> bool {
    g.edges_view()[a as int].target_index == g.edges_view()[b as int].source_index
}

/// `s` back to front.
pub open spec fn backwards(s: Seq<usize>) -> Seq<usize> {
    Seq::new(s.len(), |j: int| s[s.len() - 1 - j])
}

/// The edge positions `p` lead from `start` through the graph.
pub open spec fn is_path(g: Graph, start: int, p: Seq<usize>) -> bool {
    &&& forall|i: int| 0 <= i < p.len() ==> #[trigger] p[i] < g.edges_view().len()
    &&& p.len() > 0 ==> g.edges_view()[p[0] as int].source_index == start
    &&& forall|i: int| 0 <= i < p.len() - 1 ==> #[trigger] linked(g, p[i], p[i + 1])
}

/// A route's polyline, edges and totals.
#[derive(Debug)]
pub struct Route {
    pub nodes: Vec<Node>,
    pub edges: Vec<Edge>,
    pub time: u32,
    pub distance: u32,
    pub intersections: usize,
}

impl Route {
    /// The route over edge positions `p` from `start`, with its totals.
    pub open spec fn follows(
        &self,
        g: Graph,
        start: int,
        goal: int,
        p: Seq<usize>,
        mode: Transport,
    ) -> bool {
        &&& self.nodes@ == path_nodes(g, start, p)
        &&& self.edges@ == path_edges(g, p)
        &&& self.distance == total_distance(self.edges@)
        &&& self.time == total_time(self.edges@, mode)
        &&& self.intersections == total_branches(g, self.edges@, goal)
    }

    /// An empty route.
    pub fn new() -> (r: Self)
        ensures
            r.nodes@.len() == 0,
            r.edges@.len() == 0,
            r.time == 0,
            r.distance == 0,
            r.intersections == 0,
    {
        Self { nodes: Vec::new(), edges: Vec::new(), time: 0, distance: 0, intersections: 0 }
    }

    /// Appends `other`, which starts where this route ends: its first node is
    /// dropped and the totals are added.
    pub fn merge(&mut self, other: Route)
        requires
            other.nodes@.len() > 0,
            old(self).time + other.time <= u32::MAX,
            old(self).distance + other.distance <= u32::MAX,
            old(self).intersections + other.intersections <= usize::MAX,
        ensures
            final(self).nodes@ == old(self).nodes@ + other.nodes@.subrange(
                1,
                other.nodes@.len() as int,
            ),
            final(self).edges@ == old(self).edges@ + other.edges@,
            final(self).time == old(self).time + other.time,
            final(self).distance == old(self).distance + other.distance,
            final(self).intersections == old(self).intersections + other.intersections,
    {
        let mut other = other;
        other.nodes.remove(0);
        self.nodes.append(&mut other.nodes);
        self.edges.append(&mut other.edges);
        self.time = self.time + other.time;
        self.distance = self.distance + other.distance;
        self.intersections = self.intersections + other.intersections;
    }
}

proof fn lemma_walk_step(g: Graph, prev: Seq<Option<usize>>, start: int, cur: int, fuel: nat)
    requires
        cur != start,
        fuel > 0,
        0 <= cur < prev.len(),
        prev[cur].is_some(),
        prev[cur].unwrap() < g.edges_view().len(),
        g.edges_view()[prev[cur].unwrap() as int].target_index == cur,
    ensures
        walk(g, prev, start, cur, fuel) == match walk(
            g,
            prev,
            start,
            g.edges_view()[prev[cur].unwrap() as int].source_index as int,
            (fuel - 1) as nat,
        ) {
            Some(p) => Some(p.push(prev[cur].unwrap())),
            None => None,
        },
{
}

proof fn lemma_walk_is_path(g: Graph, prev: Seq<Option<usize>>, start: int, cur: int, fuel: nat)
    requires
        walk(g, prev, start, cur, fuel).is_some(),
    ensures
        is_path(g, start, walk(g, prev, start, cur, fuel).unwrap()),
        walk(g, prev, start, cur, fuel).unwrap().len() > 0 ==> g.edges_view()[walk(
            g,
            prev,
            start,
            cur,
            fuel,
        ).unwrap().last() as int].target_index == cur,
    decreases fuel,
{
    if cur != start {
        let k = prev[cur].unwrap();
        let s = g.edges_view()[k as int].source_index as int;
        lemma_walk_is_path(g, prev, start, s, (fuel - 1) as nat);
        let q = walk(g, prev, start, s, (fuel - 1) as nat).unwrap();
        let p = q.push(k);
        assert forall|i: int| 0 <= i < p.len() - 1 implies #[trigger] linked(g, p[i], p[i + 1]) by {
            if i < q.len() - 1 {
                assert(p[i] == q[i] && p[i + 1] == q[i + 1]);
            } else {
                assert(p[i] == q.last());
            }
        }
        assert forall|i: int| 0 <= i < p.len() implies #[trigger] p[i] < g.edges_view().len() by {
            if i < q.len() {
                assert(p[i] == q[i]);
            }
        }
        if q.len() > 0 {
            assert(p[0] == q[0]);
        }
    }
}

proof fn lemma_totals_grow(g: Graph, es: Seq<Edge>, i: int, mode: Transport, goal: int)
    requires
        0 <= i <= es.len(),
    ensures
        total_distance(es.subrange(0, i)) <= total_distance(es),
        total_time(es.subrange(0, i), mode) <= total_time(es, mode),
        total_branches(g, es.subrange(0, i), goal) <= total_branches(g, es, goal),
    decreases es.len(),
{
    if i < es.len() {
        assert(es.drop_last().subrange(0, i) =~= es.subrange(0, i));
        lemma_totals_grow(g, es.drop_last(), i, mode, goal);
        assert(edge_time(es.last(), mode) >= 0) by {
            crate::osm::lemma_travel_time_nonneg(es.last().meta.max_speed.speed as int, edge_distance(es.last()));
        }
    } else {
        assert(es.subrange(0, i) =~= es);
    }
}

/// Reconstructs routes from the predecessor edges of a finished search.
pub struct RouteBuilder<'a, 'b> {
    graph: &'a Graph,
    prev: &'b Vec<Option<usize>>,
    transport: Transport,
}

impl<'a, 'b> RouteBuilder<'a, 'b> {
    pub closed spec fn graph_view(&self) -> Graph {
        *self.graph
    }

    pub closed spec fn prev_view(&self) -> Seq<Option<usize>> {
        self.prev@
    }

    pub closed spec fn transport_view(&self) -> Transport {
        self.transport
    }

    pub fn new(graph: &'a Graph, prev: &'b Vec<Option<usize>>, transport: Transport) -> (r: Self)
        ensures
            r.graph_view() == *graph,
            r.prev_view() == prev@,
            r.transport_view() == transport,
    {
        Self { graph, prev, transport }
    }

    /// The route from `start_index` to `goal_index` along the predecessor
    /// edges, walked back from the goal in at most one step per node. `None`
    /// when that walk does not reach the start, or a total does not fit.
    pub fn build(&self, start_index: usize, goal_index: usize) -> (r: Option<Route>)
        requires
            self.graph_view().wf(),
            start_index < self.graph_view().nodes_view().len(),
            goal_index < self.graph_view().nodes_view().len(),
            self.prev_view().len() == self.graph_view().nodes_view().len(),
            is_atomic(self.transport_view()),
        ensures
            ({
                let g = self.graph_view();
                let w = walk(
                    g,
                    self.prev_view(),
                    start_index as int,
                    goal_index as int,
                    g.nodes_view().len(),
                );
                match r {
                    Some(route) => {
                        &&& w.is_some()
                        &&& is_path(g, start_index as int, w.unwrap())
                        &&& route.follows(
                            g,
                            start_index as int,
                            goal_index as int,
                            w.unwrap(),
                            self.transport_view(),
                        )
                        &&& route.nodes@.len() == route.edges@.len() + 1
                        &&& route.nodes@.last() == g.nodes_view()[goal_index as int]
                    },
                    None => w.is_none() || total_distance(path_edges(g, w.unwrap())) > u32::MAX
                        || total_time(path_edges(g, w.unwrap()), self.transport_view()) > u32::MAX
                        || total_branches(g, path_edges(g, w.unwrap()), goal_index as int)
                        > usize::MAX,
                }
            }),
    {
        let path = match self.walk_back(start_index, goal_index) {
            Some(p) => p,
            None => {
                return None;
            },
        };
        proof {
            lemma_walk_is_path(
                *self.graph,
                self.prev@,
                start_index as int,
                goal_index as int,
                self.graph.nodes_view().len(),
            );
        }
        self.route_along(start_index, goal_index, &path)
    }

    /// The edge positions met walking the predecessor edges back from the goal
    /// to the start, as `walk` gives them.
    fn walk_back(&self, start_index: usize, goal_index: usize) -> (r: Option<Vec<usize>>)
        requires
            self.graph_view().wf(),
            start_index < self.graph_view().nodes_view().len(),
            goal_index < self.graph_view().nodes_view().len(),
            self.prev_view().len() == self.graph_view().nodes_view().len(),
        ensures
            ({
                let w = walk(
                    self.graph_view(),
                    self.prev_view(),
                    start_index as int,
                    goal_index as int,
                    self.graph_view().nodes_view().len(),
                );
                &&& r.is_some() == w.is_some()
                &&& r.is_some() ==> r.unwrap()@ == w.unwrap()
            }),
    {
        let ghost g = *self.graph;
        let ghost prev = self.prev@;
        let n = self.graph.num_nodes();
        let ghost full = walk(g, prev, start_index as int, goal_index as int, n as nat);
        let mut rev: Vec<usize> = Vec::new();
        let mut cur = goal_index;
        let mut steps: usize = 0;
        while cur != start_index
            invariant
                g == *self.graph,
                prev == self.prev@,
                g.wf(),
                n == g.nodes_view().len(),
                prev.len() == n,
                cur < n,
                steps <= n,
                steps == rev@.len(),
                full == walk(g, prev, start_index as int, goal_index as int, n as nat),
                full == match walk(g, prev, start_index as int, cur as int, (n - steps) as nat) {
                    Some(p) => Some(p + backwards(rev@)),
                    None => None,
                },
            decreases n - steps,
        {
            if steps >= n {
                proof {
                    assert(walk(g, prev, start_index as int, cur as int, 0).is_none());
                    assert(full.is_none());
                }
                return None;
            }
            let k = match self.prev[cur] {
                Some(k) => k,
                None => {
                    proof {
                        assert(walk(g, prev, start_index as int, cur as int, (n - steps) as nat).is_none());
                    assert(full.is_none());
                    }
                    return None;
                },
            };
            if k >= self.graph.num_edges() {
                proof {
                    assert(walk(g, prev, start_index as int, cur as int, (n - steps) as nat).is_none());
                    assert(full.is_none());
                }
                return None;
            }
            let e = self.graph.edge(k);
            if e.target_index != cur {
                proof {
                    assert(walk(g, prev, start_index as int, cur as int, (n - steps) as nat).is_none());
                    assert(full.is_none());
                }
                return None;
            }
            proof {
                lemma_walk_step(g, prev, start_index as int, cur as int, (n - steps) as nat);
                let w = walk(
                    g,
                    prev,
                    start_index as int,
                    e.source_index as int,
                    (n - steps - 1) as nat,
                );
                if w.is_some() {
                    assert(w.unwrap().push(k) + backwards(rev@) =~= w.unwrap() + (seq![k] + backwards(rev@)));
                }
                crate::graph::lemma_edge_ends(self.graph, k as int);
            }
            let ghost before = rev@;
            rev.push(k);
            proof {
                assert(backwards(rev@) =~= seq![k] + backwards(before));
            }
            cur = e.source_index;
            steps += 1;
        }
        proof {
            assert(backwards(rev@) =~= Seq::<usize>::empty() + backwards(rev@));
        }
        let len = rev.len();
        let mut path: Vec<usize> = Vec::with_capacity(len);
        let mut j: usize = 0;
        while j < len
            invariant
                len == rev@.len(),
                j <= len,
                path@ =~= backwards(rev@).subrange(0, j as int),
            decreases len - j,
        {
            path.push(rev[len - 1 - j]);
            j += 1;
        }
        proof {
            assert(backwards(rev@).subrange(0, len as int) =~= backwards(rev@));
        }
        Some(path)
    }

    /// The route over the edge positions `path`, or `None` when a total does
    /// not fit.
    fn route_along(&self, start_index: usize, goal_index: usize, path: &Vec<usize>) -> (r: Option<
        Route,
    >)
        requires
            self.graph_view().wf(),
            start_index < self.graph_view().nodes_view().len(),
            goal_index < self.graph_view().nodes_view().len(),
            is_atomic(self.transport_view()),
            is_path(self.graph_view(), start_index as int, path@),
            path@.len() > 0 ==> self.graph_view().edges_view()[path@.last() as int].target_index
                == goal_index,
            path@.len() == 0 ==> start_index == goal_index,
        ensures
            ({
                let g = self.graph_view();
                match r {
                    Some(route) => {
                        &&& route.follows(
                            g,
                            start_index as int,
                            goal_index as int,
                            path@,
                            self.transport_view(),
                        )
                        &&& route.nodes@.len() == route.edges@.len() + 1
                        &&& route.nodes@.last() == g.nodes_view()[goal_index as int]
                    },
                    None => total_distance(path_edges(g, path@)) > u32::MAX || total_time(
                        path_edges(g, path@),
                        self.transport_view(),
                    ) > u32::MAX || total_branches(g, path_edges(g, path@), goal_index as int)
                        > usize::MAX,
                }
            }),
    {
        let ghost g = *self.graph;
        let ghost all = path_edges(g, path@);
        let mut route = Route::new();
        route.nodes.push(*self.graph.node(start_index));
        let mut i: usize = 0;
        while i < path.len()
            invariant
                g == *self.graph,
                g.wf(),
                all == path_edges(g, path@),
                is_path(g, start_index as int, path@),
                i <= path@.len(),
                is_atomic(self.transport_view()),
                route.nodes@ == path_nodes(g, start_index as int, path@.subrange(0, i as int)),
                route.edges@ == all.subrange(0, i as int),
                route.distance == total_distance(route.edges@),
                route.time == total_time(route.edges@, self.transport_view()),
                route.intersections == total_branches(g, route.edges@, goal_index as int),
            decreases path@.len() - i,
        {
            let k = path[i];
            proof {
                crate::graph::lemma_edge_ends(self.graph, k as int);
            }
            let e = self.graph.edge(k);
            let (first, end) = self.graph.edge_range(e.target_index);
            let degree = end - first;
            let side: usize = if degree > 2 && e.target_index != goal_index {
                degree - 2
            } else {
                0
            };
            let ghost es = route.edges@;
            proof {
                assert(all.subrange(0, i + 1).drop_last() =~= all.subrange(0, i as int));
                assert(all[i as int] == *e);
                assert(side == branches(g, *e, goal_index as int));
                lemma_totals_grow(g, all, i + 1, self.transport_view(), goal_index as int);
            }
            let distance = match route.distance.checked_add(e.distance()) {
                Some(d) => d,
                None => {
                    return None;
                },
            };
            let time = match route.time.checked_add(e.time(self.transport)) {
                Some(t) => t,
                None => {
                    return None;
                },
            };
            let intersections = match route.intersections.checked_add(side) {
                Some(s) => s,
                None => {
                    return None;
                },
            };
            route.nodes.push(*self.graph.node(e.target_index));
            route.edges.push(*e);
            route.distance = distance;
            route.time = time;
            route.intersections = intersections;
            i += 1;
            proof {
                assert(route.edges@ =~= all.subrange(0, i as int));
                assert(route.edges@.drop_last() =~= es);
                assert(path@.subrange(0, i as int) =~= path@.subrange(0, i - 1).push(k));
                assert(route.nodes@ =~= path_nodes(g, start_index as int, path@.subrange(0, i as int)));
            }
        }
        proof {
            assert(path@.subrange(0, path@.len() as int) =~= path@);
            assert(all.subrange(0, path@.len() as int) =~= all);
        }
        Some(route)
    }
}

} // verus!
