//! A* search over the road graph.
use vstd::prelude::*;
use vstd::multiset::Multiset;
use vstd::set_lib::*;
use crate::edge::{Edge, edge_cost, relevant};
use crate::graph::{Graph, lemma_adjacency_sources, lemma_edge_ends};
use crate::options::{Params, Routing, Transport, is_atomic};
use crate::queue::{MinQueue, RouterNode, priority_of};
use crate::route::{
    Route, RouteBuilder, is_path, linked, path_edges, total_branches, total_distance, total_time,
    walk,
};

verus! {

/// Why no route came out.
#[derive(Debug, Clone, Copy, PartialEq, Eq, Structural)]
pub enum RouteError {
    /// A waypoint's cell holds no node at all.
    PointNotOnMap,
    /// No node near a waypoint has an edge usable with the parameters.
    NoTransportMatch,
    /// Start and goal snapped to the same node.
    StartIsGoal,
    /// The search ran out of nodes before it reached the goal.
    NoPath,
    /// The route's time, distance or side roads do not fit their integer types.
    TooLong,
}

impl RouteError {
    pub fn message(&self) -> (r: &'static str)
        ensures
            r@ == match *self {
                RouteError::PointNotOnMap => "Couldn't locate point on map"@,
                RouteError::NoTransportMatch => "No point matching transportation found"@,
                RouteError::StartIsGoal => "No path found, start is goal"@,
                RouteError::NoPath => "No path found"@,
                RouteError::TooLong => "Route too long"@,
            },
    {
        match self {
            RouteError::PointNotOnMap => "Couldn't locate point on map",
            RouteError::NoTransportMatch => "No point matching transportation found",
            RouteError::StartIsGoal => "No path found, start is goal",
            RouteError::NoPath => "No path found",
            RouteError::TooLong => "Route too long",
        }
    }
}

/// The edge positions `p` lead from `start` over edges usable with `params`.
pub open spec fn relevant_path(g: Graph, params: Params, start: int, p: Seq<usize>) -> bool {
    &&& is_path(g, start, p)
    &&& forall|i: int| 0 <= i < p.len() ==> relevant(g.edges_view()[#[trigger] p[i] as int], params)
}

/// The search cost of the edges at positions `p`.
pub open spec fn path_cost(g: Graph, params: Params, p: Seq<usize>) -> int
    decreases p.len(),
{
    if p.len() == 0 {
        0
    } else {
        path_cost(g, params, p.drop_last()) + edge_cost(
            g.edges_view()[p.last() as int],
            params.transport,
            params.routing,
        )
    }
}

/// The node where the edges at positions `p` from `start` arrive.
pub open spec fn path_end(g: Graph, start: int, p: Seq<usize>) -> int {
    if p.len() == 0 {
        start
    } else {
        g.edges_view()[p.last() as int].target_index as int
    }
}

/// The sum of a sequence of costs.
pub open spec fn cost_sum(s: Seq<u32>) -> nat
    decreases s.len(),
{
    if s.len() == 0 {
        0
    } else {
        cost_sum(s.drop_last()) + s.last() as nat
    }
}

proof fn lemma_cost_sum_update(s: Seq<u32>, i: int, v: u32)
    requires
        0 <= i < s.len(),
    ensures
        cost_sum(s.update(i, v)) == cost_sum(s) - s[i] + v,
    decreases s.len(),
{
    let t = s.update(i, v);
    if i < s.len() - 1 {
        assert(t.drop_last() =~= s.drop_last().update(i, v));
        lemma_cost_sum_update(s.drop_last(), i, v);
    } else {
        assert(t.drop_last() =~= s.drop_last());
    }
}

proof fn lemma_edge_cost_nonneg(e: Edge, params: Params)
    ensures
        edge_cost(e, params.transport, params.routing) >= 0,
{
    crate::osm::lemma_travel_time_nonneg(
        e.meta.max_speed.speed as int,
        e.distance.unwrap() as int,
    );
}

/// Reaching `v` over edge `k` costs no less than reaching its source plus
/// the edge, and strictly more by (cost, stamp) order.
spec fn prev_edge_ok(
    g: Graph,
    params: Params,
    start: int,
    cost: Seq<u32>,
    stamp: Seq<nat>,
    v: int,
    k: usize,
) -> bool {
    let e = g.edges_view()[k as int];
    let u = e.source_index as int;
    &&& k < g.edges_view().len()
    &&& e.target_index == v
    &&& relevant(e, params)
    &&& v != start
    &&& cost[v] < u32::MAX
    &&& cost[u] + edge_cost(e, params.transport, params.routing) <= cost[v]
    &&& (cost[u] < cost[v] || stamp[u] < stamp[v])
}

spec fn prev_ok(
    g: Graph,
    params: Params,
    start: int,
    cost: Seq<u32>,
    prev: Seq<Option<usize>>,
    stamp: Seq<nat>,
) -> bool {
    &&& forall|v: int|
        0 <= v < prev.len() && (#[trigger] prev[v]).is_some() ==> prev_edge_ok(
            g,
            params,
            start,
            cost,
            stamp,
            v,
            prev[v].unwrap(),
        )
    &&& forall|v: int|
        0 <= v < cost.len() && #[trigger] cost[v] < u32::MAX && v != start ==> prev[v].is_some()
}

/// A queue entry for `v` at its current cost.
spec fn pending(q: Multiset<RouterNode>, cost: Seq<u32>, v: int) -> bool {
    exists|x: RouterNode| #[trigger] q.count(x) > 0 && x.index == v && x.cost == cost[v]
}

/// The edges of `u` from position `from` to `to` lead nowhere cheaper than
/// through `u`.
spec fn relaxed(g: Graph, params: Params, cost: Seq<u32>, u: int, from: int, to: int) -> bool {
    forall|k: int|
        from <= k < to && relevant(#[trigger] g.edges_view()[k], params) ==> cost[g.edges_view()[
            k].target_index as int] <= cost[u] + edge_cost(
            g.edges_view()[k],
            params.transport,
            params.routing,
        )
}

/// `u` is not the goal and all its edges have been relaxed.
spec fn closed(g: Graph, params: Params, cost: Seq<u32>, goal_id: i64, u: int) -> bool {
    &&& g.nodes_view()[u].id != goal_id
    &&& relaxed(g, params, cost, u, g.first_edge(u), g.end_edge(u))
}

spec fn frontier_ok(
    g: Graph,
    params: Params,
    q: Multiset<RouterNode>,
    cost: Seq<u32>,
    goal_id: i64,
    except: int,
) -> bool {
    forall|v: int|
        0 <= v < cost.len() && #[trigger] cost[v] < u32::MAX && v != except ==> pending(q, cost, v)
            || closed(g, params, cost, goal_id, v)
}

spec fn queue_ok(q: Multiset<RouterNode>, cost: Seq<u32>) -> bool {
    forall|x: RouterNode|
        #[trigger] q.count(x) > 0 ==> x.index < cost.len() && x.cost < u32::MAX && cost[x.index as int]
            <= x.cost
}

/// The estimate the search uses at node `v`.
pub open spec fn estimate(params: Params, estimates: Seq<u32>, v: int) -> int {
    if params.transport == Transport::Car && params.routing == Routing::Time {
        0
    } else {
        estimates[v] as int
    }
}

/// The estimates never exceed an edge's cost plus the estimate at its end,
/// and are zero at the nodes with the goal's id: they never overestimate what
/// remains.
pub open spec fn consistent(g: Graph, params: Params, estimates: Seq<u32>, goal_id: i64) -> bool {
    &&& forall|k: int|
        0 <= k < g.edges_view().len() && relevant(#[trigger] g.edges_view()[k], params) ==> estimate(
            params,
            estimates,
            g.edges_view()[k].source_index as int,
        ) <= edge_cost(g.edges_view()[k], params.transport, params.routing) + estimate(
            params,
            estimates,
            g.edges_view()[k].target_index as int,
        )
    &&& forall|v: int|
        0 <= v < g.nodes_view().len() && (#[trigger] g.nodes_view()[v]).id == goal_id ==> estimate(
            params,
            estimates,
            v,
        ) == 0
}

spec fn estimates_ok(q: Multiset<RouterNode>, params: Params, estimates: Seq<u32>) -> bool {
    forall|x: RouterNode|
        #[trigger] q.count(x) > 0 ==> x.heuristic <= estimate(params, estimates, x.index as int)
}

/// Along a usable path cheaper than the cost bound, the search has either
/// reached the end at no more than the path's cost, or holds an entry whose
/// cost and estimate add up to no more than the path's cost and the estimate
/// at its end.
proof fn lemma_path_bound(
    g: Graph,
    params: Params,
    start: int,
    cost: Seq<u32>,
    q: Multiset<RouterNode>,
    estimates: Seq<u32>,
    goal_id: i64,
    p: Seq<usize>,
)
    requires
        g.wf(),
        cost.len() == g.nodes_view().len(),
        estimates.len() == g.nodes_view().len(),
        0 <= start < g.nodes_view().len(),
        cost[start] == 0,
        frontier_ok(g, params, q, cost, goal_id, -1),
        consistent(g, params, estimates, goal_id),
        relevant_path(g, params, start, p),
        path_cost(g, params, p) < u32::MAX,
    ensures
        0 <= path_end(g, start, p) < g.nodes_view().len(),
        cost[path_end(g, start, p)] <= path_cost(g, params, p) || exists|w: int|
            0 <= w < cost.len() && #[trigger] pending(q, cost, w) && cost[w] + estimate(
                params,
                estimates,
                w,
            ) <= path_cost(g, params, p) + estimate(params, estimates, path_end(g, start, p)),
    decreases p.len(),
{
    if p.len() > 0 {
        let r = p.drop_last();
        let k = p.last();
        assert(p[p.len() - 1] == k);
        assert forall|i: int| 0 <= i < r.len() - 1 implies #[trigger] linked(g, r[i], r[i + 1]) by {
            assert(linked(g, p[i], p[i + 1]));
        }
        assert forall|i: int| 0 <= i < r.len() implies #[trigger] r[i] < g.edges_view().len()
            && relevant(g.edges_view()[r[i] as int], params) by {
            assert(p[i] == r[i]);
        }
        if r.len() > 0 {
            assert(r[0] == p[0]);
            let i = r.len() - 1;
            assert(linked(g, p[i], p[i + 1]));
        }
        lemma_edge_cost_nonneg(g.edges_view()[k as int], params);
        lemma_path_bound(g, params, start, cost, q, estimates, goal_id, r);
        let a = path_end(g, start, r);
        lemma_edge_ends(&g, k as int);
        assert(g.edges_view()[k as int].source_index == a);
        assert(relevant(g.edges_view()[k as int], params));
        let b = g.edges_view()[k as int].target_index as int;
        if cost[a] <= path_cost(g, params, r) {
            if !pending(q, cost, a) {
                assert(closed(g, params, cost, goal_id, a));
            } else {
                assert(pending(q, cost, a));
            }
        }
    }
}

/// `a` comes before `b` in (cost, stamp) order.
spec fn before(cost: Seq<u32>, stamp: Seq<nat>, a: int, b: int) -> bool {
    cost[a] < cost[b] || (cost[a] == cost[b] && stamp[a] < stamp[b])
}

spec fn earlier(cost: Seq<u32>, stamp: Seq<nat>, n: int, v: int) -> Set<int> {
    Set::new(|u: int| 0 <= u < n && before(cost, stamp, u, v))
}

proof fn lemma_earlier_finite(cost: Seq<u32>, stamp: Seq<nat>, n: int, v: int)
    requires
        n >= 0,
    ensures
        earlier(cost, stamp, n, v).finite(),
        earlier(cost, stamp, n, v).len() <= n,
        0 <= v < n ==> earlier(cost, stamp, n, v).len() < n,
{
    let s = earlier(cost, stamp, n, v);
    let r = set_int_range(0, n);
    lemma_int_range(0, n);
    assert(s.subset_of(r));
    lemma_len_subset(s, r);
    if 0 <= v < n {
        assert(s.subset_of(r.remove(v)));
        lemma_len_subset(s, r.remove(v));
    }
}

/// Following predecessor edges from a reached node gets back to the start
/// within one step per node.
proof fn lemma_walk_reaches_start(
    g: Graph,
    params: Params,
    start: int,
    cost: Seq<u32>,
    prev: Seq<Option<usize>>,
    stamp: Seq<nat>,
    v: int,
    fuel: nat,
)
    requires
        g.wf(),
        prev.len() == g.nodes_view().len(),
        cost.len() == g.nodes_view().len(),
        stamp.len() == g.nodes_view().len(),
        prev_ok(g, params, start, cost, prev, stamp),
        0 <= v < g.nodes_view().len(),
        0 <= start < g.nodes_view().len(),
        cost[v] < u32::MAX,
        cost[start] == 0,
        fuel > earlier(cost, stamp, g.nodes_view().len() as int, v).len(),
    ensures
        walk(g, prev, start, v, fuel).is_some(),
        path_cost(g, params, walk(g, prev, start, v, fuel).unwrap()) <= cost[v],
        relevant_path(g, params, start, walk(g, prev, start, v, fuel).unwrap()),
        path_end(g, start, walk(g, prev, start, v, fuel).unwrap()) == v,
    decreases fuel,
{
    let n = g.nodes_view().len() as int;
    lemma_earlier_finite(cost, stamp, n, v);
    if v != start {
        let k = prev[v].unwrap();
        assert(prev_edge_ok(g, params, start, cost, stamp, v, k));
        let u = g.edges_view()[k as int].source_index as int;
        lemma_edge_ends(&g, k as int);
        lemma_edge_cost_nonneg(g.edges_view()[k as int], params);
        let su = earlier(cost, stamp, n, u);
        let sv = earlier(cost, stamp, n, v);
        lemma_earlier_finite(cost, stamp, n, u);
        assert(su.subset_of(sv.remove(u)));
        lemma_len_subset(su, sv.remove(u));
        assert(sv.contains(u));
        lemma_walk_reaches_start(g, params, start, cost, prev, stamp, u, (fuel - 1) as nat);
        let q = walk(g, prev, start, u, (fuel - 1) as nat).unwrap();
        let p = q.push(k);
        assert(walk(g, prev, start, v, fuel) == Some(p));
        assert(p.drop_last() =~= q);
        assert forall|i: int| 0 <= i < p.len() - 1 implies #[trigger] linked(g, p[i], p[i + 1]) by {
            if i < q.len() - 1 {
                assert(p[i] == q[i] && p[i + 1] == q[i + 1]);
                assert(linked(g, q[i], q[i + 1]));
            } else {
                assert(p[i] == q.last());
            }
        }
        assert forall|i: int| 0 <= i < p.len() implies #[trigger] p[i] < g.edges_view().len()
            && relevant(g.edges_view()[p[i] as int], params) by {
            if i < q.len() {
                assert(p[i] == q[i]);
            }
        }
        if q.len() > 0 {
            assert(p[0] == q[0]);
        }
    }
}

/// When no entry is left, every node that a cheap enough usable path reaches
/// has been reached, and is not the goal.
proof fn lemma_drained(
    g: Graph,
    params: Params,
    start: int,
    cost: Seq<u32>,
    goal_id: i64,
    p: Seq<usize>,
)
    requires
        g.wf(),
        cost.len() == g.nodes_view().len(),
        0 <= start < g.nodes_view().len(),
        cost[start] == 0,
        frontier_ok(g, params, Multiset::empty(), cost, goal_id, -1),
        relevant_path(g, params, start, p),
        path_cost(g, params, p) < u32::MAX,
    ensures
        0 <= path_end(g, start, p) < g.nodes_view().len(),
        cost[path_end(g, start, p)] <= path_cost(g, params, p),
        g.nodes_view()[path_end(g, start, p)].id != goal_id,
    decreases p.len(),
{
    if p.len() > 0 {
        let q = p.drop_last();
        let k = p.last();
        assert(p[p.len() - 1] == k);
        assert forall|i: int| 0 <= i < q.len() - 1 implies #[trigger] linked(g, q[i], q[i + 1]) by {
            assert(linked(g, p[i], p[i + 1]));
        }
        assert forall|i: int| 0 <= i < q.len() implies #[trigger] q[i] < g.edges_view().len()
            && relevant(g.edges_view()[q[i] as int], params) by {
            assert(p[i] == q[i]);
        }
        if q.len() > 0 {
            assert(q[0] == p[0]);
        }
        lemma_edge_cost_nonneg(g.edges_view()[k as int], params);
        lemma_drained(g, params, start, cost, goal_id, q);
        let u = path_end(g, start, q);
        lemma_edge_ends(&g, k as int);
        if q.len() > 0 {
            let i = q.len() - 1;
            assert(linked(g, p[i], p[i + 1]));
        }
        assert(g.edges_view()[k as int].source_index == u);
        assert(!pending(Multiset::empty(), cost, u));
        assert(closed(g, params, cost, goal_id, u));
        assert(relevant(g.edges_view()[k as int], params));
    }
    assert(!pending(Multiset::empty(), cost, path_end(g, start, p)));
}

/// One search: the graph, the parameters, and the frontier, best costs and
/// predecessor edges.
pub struct Router<'a> {
    graph: &'a Graph,
    params: Params,
    queue: MinQueue,
    cost: Vec<u32>,
    prev: Vec<Option<usize>>,
}

impl<'a> Router<'a> {
    pub closed spec fn graph_view(&self) -> Graph {
        *self.graph
    }

    pub closed spec fn params_view(&self) -> Params {
        self.params
    }

    /// No search has run yet.
    pub closed spec fn fresh(&self) -> bool {
        &&& self.queue@.len() == 0
        &&& self.queue.wf()
        &&& self.cost@.len() == self.graph.nodes_view().len()
        &&& self.prev@.len() == self.graph.nodes_view().len()
        &&& forall|i: int| 0 <= i < self.cost@.len() ==> #[trigger] self.cost@[i] == u32::MAX
        &&& forall|i: int| 0 <= i < self.prev@.len() ==> #[trigger] self.prev@[i].is_none()
    }

    pub fn new(graph: &'a Graph, params: Params) -> (r: Self)
        ensures
            r.graph_view() == *graph,
            r.params_view() == params,
            r.fresh(),
    {
        let n = graph.num_nodes();
        let mut prev: Vec<Option<usize>> = Vec::with_capacity(n);
        let mut cost: Vec<u32> = Vec::with_capacity(n);
        let mut i: usize = 0;
        while i < n
            invariant
                n == graph.nodes_view().len(),
                i <= n,
                prev@.len() == i,
                cost@.len() == i,
                forall|j: int| 0 <= j < i ==> #[trigger] cost@[j] == u32::MAX,
                forall|j: int| 0 <= j < i ==> #[trigger] prev@[j].is_none(),
            decreases n - i,
        {
            prev.push(None);
            cost.push(u32::MAX);
            i += 1;
        }
        Self { graph, params, queue: MinQueue::with_capacity(n), cost, prev }
    }

    /// The estimate of what remains from node `from` to the goal: none for cars
    /// routed by time, else the given straight-line distance in meters.
    fn heuristic(&self, from: usize, estimates: &Vec<u32>) -> (r: u32)
        requires
            from < estimates@.len(),
        ensures
            self.params.transport == Transport::Car && self.params.routing == Routing::Time ==> r
                == 0,
            !(self.params.transport == Transport::Car && self.params.routing == Routing::Time)
                ==> r == estimates@[from as int],
    {
        if self.params.transport == Transport::Car && self.params.routing == Routing::Time {
            0
        } else {
            estimates[from]
        }
    }

    /// The route along the predecessor edges from the start to `u`, a node
    /// the search has reached.
    fn finish(
        graph: &Graph,
        prev: &Vec<Option<usize>>,
        cost: &Vec<u32>,
        params: Params,
        start_index: usize,
        u: usize,
        Ghost(stamp): Ghost<Seq<nat>>,
    ) -> (r: Result<
        Route,
        RouteError,
    >)
        requires
            graph.wf(),
            start_index < graph.nodes_view().len(),
            u < graph.nodes_view().len(),
            cost@.len() == graph.nodes_view().len(),
            prev@.len() == graph.nodes_view().len(),
            stamp.len() == graph.nodes_view().len(),
            prev_ok(*graph, params, start_index as int, cost@, prev@, stamp),
            cost@[u as int] < u32::MAX,
            cost@[start_index as int] == 0,
            is_atomic(params.transport),
        ensures
            ({
                let g = *graph;
                let start = start_index as int;
                let w = walk(g, prev@, start, u as int, g.nodes_view().len());
                &&& w.is_some()
                &&& relevant_path(g, params, start, w.unwrap())
                &&& path_end(g, start, w.unwrap()) == u
                &&& path_cost(g, params, w.unwrap()) <= cost@[u as int]
                &&& match r {
                    Ok(route) => route.follows(g, start, u as int, w.unwrap(), params.transport)
                        && route.nodes@.len() == route.edges@.len() + 1,
                    Err(e) => e == RouteError::TooLong && (total_distance(
                        path_edges(g, w.unwrap()),
                    ) > u32::MAX || total_time(path_edges(g, w.unwrap()), params.transport)
                        > u32::MAX || total_branches(g, path_edges(g, w.unwrap()), u as int)
                        > usize::MAX),
                }
            }),
    {
        let n = graph.num_nodes();
        let ghost g = *graph;
        proof {
            lemma_earlier_finite(cost@, stamp, n as int, u as int);
            lemma_walk_reaches_start(
                g,
                params,
                start_index as int,
                cost@,
                prev@,
                stamp,
                u as int,
                n as nat,
            );
        }
        let builder = RouteBuilder::new(graph, prev, params.transport);
        let built = builder.build(start_index, u);
        let ghost w = walk(g, prev@, start_index as int, u as int, n as nat).unwrap();
        assert(relevant_path(g, params, start_index as int, w));
        match built {
            Some(route) => Ok(route),
            None => Err(RouteError::TooLong),
        }
    }

    /// The route from node `start_index` to the first node with the id of
    /// node `goal_index` that the search settles. `estimates[i]` is the
    /// straight-line distance in meters from node `i` to the goal node.
    pub fn shortest_path(&mut self, start_index: usize, goal_index: usize, estimates: &Vec<u32>) -> (r:
        Result<Route, RouteError>)
        requires
            old(self).fresh(),
            old(self).graph_view().wf(),
            start_index < old(self).graph_view().nodes_view().len(),
            goal_index < old(self).graph_view().nodes_view().len(),
            estimates@.len() == old(self).graph_view().nodes_view().len(),
            is_atomic(old(self).params_view().transport),
        ensures
            final(self).graph_view() == old(self).graph_view(),
            final(self).params_view() == old(self).params_view(),
            ({
                let g = old(self).graph_view();
                let params = old(self).params_view();
                let start = start_index as int;
                let goal_id = g.nodes_view()[goal_index as int].id;
                &&& (r == Err::<Route, RouteError>(RouteError::StartIsGoal)) == (
                g.nodes_view()[start].id == goal_id)
                &&& match r {
                    Ok(route) => exists|p: Seq<usize>|
                        #[trigger] relevant_path(g, params, start, p) && g.nodes_view()[path_end(
                            g,
                            start,
                            p,
                        )].id == goal_id && route.follows(
                            g,
                            start,
                            path_end(g, start, p),
                            p,
                            params.transport,
                        ) && route.nodes@.len() == route.edges@.len() + 1 && (consistent(
                            g,
                            params,
                            estimates@,
                            goal_id,
                        ) ==> forall|q: Seq<usize>|
                            #[trigger] relevant_path(g, params, start, q) && g.nodes_view()[path_end(
                                g,
                                start,
                                q,
                            )].id == goal_id ==> path_cost(g, params, p) <= path_cost(g, params, q)),
                    Err(RouteError::NoPath) => forall|p: Seq<usize>|
                        #[trigger] relevant_path(g, params, start, p) && path_cost(g, params, p)
                            < u32::MAX ==> g.nodes_view()[path_end(g, start, p)].id != goal_id,
                    Err(RouteError::TooLong) => exists|p: Seq<usize>|
                        #[trigger] relevant_path(g, params, start, p) && g.nodes_view()[path_end(
                            g,
                            start,
                            p,
                        )].id == goal_id && path_cost(g, params, p) < u32::MAX && (consistent(
                            g,
                            params,
                            estimates@,
                            goal_id,
                        ) ==> forall|q: Seq<usize>|
                            #[trigger] relevant_path(g, params, start, q) && g.nodes_view()[path_end(
                                g,
                                start,
                                q,
                            )].id == goal_id ==> path_cost(g, params, p) <= path_cost(g, params, q))
                            && (total_distance(path_edges(g, p)) > u32::MAX
                            || total_time(path_edges(g, p), params.transport) > u32::MAX
                            || total_branches(g, path_edges(g, p), path_end(g, start, p))
                            > usize::MAX),
                    Err(e) => e == RouteError::StartIsGoal,
                }
            }),
    {
        let ghost g = *self.graph;
        let ghost params = self.params;
        let n = self.graph.num_nodes();
        let start_id = self.graph.node(start_index).id;
        let goal_id = self.graph.node(goal_index).id;
        if start_id == goal_id {
            return Err(RouteError::StartIsGoal);
        }
        let ghost mut stamp: Seq<nat> = Seq::new(n as nat, |i: int| 0nat);
        let ghost mut clock: nat = 1;
        self.cost.set(start_index, 0);
        proof {
            stamp = stamp.update(start_index as int, clock);
            clock = clock + 1;
        }
        self.queue.push(RouterNode::new(start_index, 0, 0));
        proof {
            assert(self.cost@ == old(self).cost@.update(start_index as int, 0));
            assert(self.prev@ == old(self).prev@);
            assert forall|v: int| 0 <= v < self.prev@.len() implies (#[trigger] self.prev@[v]).is_none() by {
                assert(old(self).prev@[v].is_none());
            }
            assert(self.queue@.count(RouterNode { index: start_index, cost: 0, heuristic: 0 }) > 0);
            assert(pending(self.queue@, self.cost@, start_index as int));
            assert forall|x: RouterNode| #[trigger] self.queue@.count(x) > 0 implies x == (RouterNode {
                index: start_index,
                cost: 0,
                heuristic: 0,
            }) by {
                assert(old(self).queue@.count(x) == 0);
            }
            assert forall|v: int| 0 <= v < self.cost@.len() && #[trigger] self.cost@[v] < u32::MAX
                implies v == start_index by {
                if v != start_index {
                    assert(self.cost@[v] == old(self).cost@[v]);
                }
            }
            assert forall|v: int|
                0 <= v < self.cost@.len() && #[trigger] self.cost@[v] < u32::MAX && v != start_index
                    implies self.prev@[v].is_some() by {
                assert(self.cost@[v] == old(self).cost@[v]);
            }
            assert(prev_ok(g, params, start_index as int, self.cost@, self.prev@, stamp));
        }
        while !self.queue.is_empty()
            invariant
                *self.graph == g,
                g == old(self).graph_view(),
                params == old(self).params_view(),
                self.params == params,
                g.wf(),
                n == g.nodes_view().len(),
                start_index < n,
                goal_index < n,
                goal_id == g.nodes_view()[goal_index as int].id,
                g.nodes_view()[start_index as int].id != goal_id,
                estimates@.len() == n,
                is_atomic(params.transport),
                self.cost@.len() == n,
                self.prev@.len() == n,
                stamp.len() == n,
                forall|v: int| 0 <= v < n ==> #[trigger] stamp[v] < clock,
                self.cost@[start_index as int] == 0,
                self.queue.wf(),
                queue_ok(self.queue@, self.cost@),
                estimates_ok(self.queue@, params, estimates@),
                prev_ok(g, params, start_index as int, self.cost@, self.prev@, stamp),
                frontier_ok(g, params, self.queue@, self.cost@, goal_id, -1),
            decreases cost_sum(self.cost@), self.queue@.len(),
        {
            let ghost q_before = self.queue@;
            let node = self.queue.pop().unwrap();
            let u = node.index;
            assert(q_before.count(node) > 0);
            if self.graph.node(u).id == goal_id {
                proof {
                    if consistent(g, params, estimates@, goal_id) {
                        assert forall|q: Seq<usize>|
                            #[trigger] relevant_path(g, params, start_index as int, q) && g.nodes_view()[path_end(
                                g,
                                start_index as int,
                                q,
                            )].id == goal_id implies self.cost@[u as int] <= path_cost(g, params, q) by {
                            if path_cost(g, params, q) < self.cost@[u as int] {
                                lemma_path_bound(
                                    g,
                                    params,
                                    start_index as int,
                                    self.cost@,
                                    q_before,
                                    estimates@,
                                    goal_id,
                                    q,
                                );
                                let b = path_end(g, start_index as int, q);
                                assert(estimate(params, estimates@, b) == 0);
                                assert(estimate(params, estimates@, u as int) == 0);
                                assert(node.heuristic <= estimate(params, estimates@, u as int));
                                let w = if self.cost@[b] <= path_cost(g, params, q) {
                                    assert(!closed(g, params, self.cost@, goal_id, b));
                                    b
                                } else {
                                    choose|w: int|
                                        0 <= w < self.cost@.len() && #[trigger] pending(
                                            q_before,
                                            self.cost@,
                                            w,
                                        ) && self.cost@[w] + estimate(params, estimates@, w)
                                            <= path_cost(g, params, q) + estimate(params, estimates@, b)
                                };
                                assert(pending(q_before, self.cost@, w));
                                let y = choose|y: RouterNode|
                                    #[trigger] q_before.count(y) > 0 && y.index == w && y.cost
                                        == self.cost@[w];
                                assert(q_before.contains(y));
                                assert(priority_of(node) <= priority_of(y));
                            }
                        }
                    }
                }
                assert(*self.graph == g);
                let result = Self::finish(
                    self.graph,
                    &self.prev,
                    &self.cost,
                    self.params,
                    start_index,
                    u,
                    Ghost(stamp),
                );
                assert(*self.graph == g);
                assert(g.nodes_view()[u as int].id == goal_id);
                let ghost w = walk(g, self.prev@, start_index as int, u as int, n as nat).unwrap();
                assert(relevant_path(g, params, start_index as int, w));
                assert(path_cost(g, params, w) < u32::MAX);
                return result;
            }
            let ghost after_pop = self.queue@;
            proof {
                assert forall|v: int|
                    0 <= v < self.cost@.len() && #[trigger] self.cost@[v] < u32::MAX && v != u
                        implies pending(self.queue@, self.cost@, v) || closed(
                        g,
                        params,
                        self.cost@,
                        goal_id,
                        v,
                    ) by {
                    if pending(q_before, self.cost@, v) {
                        let x = choose|x: RouterNode|
                            #[trigger] q_before.count(x) > 0 && x.index == v && x.cost
                                == self.cost@[v];
                        assert(x != node);
                        assert(self.queue@.count(x) == q_before.count(x));
                    }
                }
                assert forall|x: RouterNode| #[trigger] self.queue@.count(x) > 0 implies x.index
                    < self.cost@.len() && x.cost < u32::MAX && self.cost@[x.index as int]
                    <= x.cost && x.heuristic <= estimate(params, estimates@, x.index as int) by {
                    assert(q_before.count(x) >= self.queue@.count(x));
                }
            }
            if node.cost > self.cost[u] {
                proof {
                    if self.cost@[u as int] < u32::MAX && pending(q_before, self.cost@, u as int) {
                        let x = choose|x: RouterNode|
                            #[trigger] q_before.count(x) > 0 && x.index == u && x.cost
                                == self.cost@[u as int];
                        assert(x != node);
                        assert(self.queue@.count(x) == q_before.count(x));
                    }
                }
                continue;
            }
            let ghost sum0 = cost_sum(self.cost@);
            let ghost len0 = self.queue@.len();
            let (first, end) = self.graph.edge_range(u);
            let mut k = first;
            while k < end
                invariant
                    *self.graph == g,
                    self.params == params,
                    g.wf(),
                    n == g.nodes_view().len(),
                    start_index < n,
                    u < n,
                    first == g.first_edge(u as int),
                    end == g.end_edge(u as int),
                    first <= k <= end,
                    end <= g.edges_view().len(),
                    goal_id == g.nodes_view()[goal_index as int].id,
                    g.nodes_view()[u as int].id != goal_id,
                    estimates@.len() == n,
                    self.cost@.len() == n,
                    self.prev@.len() == n,
                    self.cost@[u as int] == node.cost,
                    node.cost < u32::MAX,
                    stamp.len() == n,
                    forall|v: int| 0 <= v < n ==> #[trigger] stamp[v] < clock,
                    self.cost@[start_index as int] == 0,
                    self.queue.wf(),
                    queue_ok(self.queue@, self.cost@),
                    estimates_ok(self.queue@, params, estimates@),
                    prev_ok(g, params, start_index as int, self.cost@, self.prev@, stamp),
                    frontier_ok(g, params, self.queue@, self.cost@, goal_id, u as int),
                    relaxed(g, params, self.cost@, u as int, first as int, k as int),
                    (cost_sum(self.cost@) == sum0 && self.queue@.len() == len0) || cost_sum(
                        self.cost@,
                    ) < sum0,
                decreases end - k,
            {
                proof {
                    lemma_edge_ends(&g, k as int);
                    lemma_adjacency_sources(&g, u as int, k - first);
                    assert(g.adjacency(u as int)[k - first] == g.edges_view()[k as int]);
                }
                let e = self.graph.edge(k);
                if e.is_relevant(&self.params) {
                    let c = node.cost as u64 + e.cost(self.params.transport, self.params.routing) as u64;
                    let t = e.target_index;
                    if c < self.cost[t] as u64 {
                        let h = self.heuristic(t, estimates);
                        let next = RouterNode::new(t, c as u32, h);
                        let ghost old_cost = self.cost@;
                        let ghost old_prev = self.prev@;
                        let ghost old_queue = self.queue@;
                        let ghost old_stamp = stamp;
                        self.prev.set(t, Some(k));
                        self.cost.set(t, c as u32);
                        self.queue.push(next);
                        proof {
                            assert(self.cost@ == old_cost.update(t as int, c as u32));
                            assert(self.prev@ == old_prev.update(t as int, Some(k)));
                            assert(*e == g.edges_view()[k as int]);
                            assert(relevant(g.edges_view()[k as int], params));
                            assert(c == node.cost + edge_cost(g.edges_view()[k as int], params.transport, params.routing));
                            assert forall|x: int| 0 <= x < n implies #[trigger] self.cost@[x] <= old_cost[x] by {
                                if x == t {
                                    assert(self.cost@[x] < old_cost[x]);
                                }
                            }
                            stamp = stamp.update(t as int, clock);
                            clock = clock + 1;
                            lemma_cost_sum_update(old_cost, t as int, c as u32);
                            assert(t != u);
                            assert(t != start_index);
                            assert forall|v: int|
                                0 <= v < self.prev@.len() && (#[trigger] self.prev@[v]).is_some()
                                    implies prev_edge_ok(
                                    g,
                                    params,
                                    start_index as int,
                                    self.cost@,
                                    stamp,
                                    v,
                                    self.prev@[v].unwrap(),
                                ) by {
                                if v == t {
                                    assert(self.prev@[v].unwrap() == k);
                                    assert(self.cost@[u as int] == node.cost);
                                    assert(stamp[u as int] == old_stamp[u as int]);
                                    assert(old_stamp[u as int] < clock - 1);
                                    assert(stamp[t as int] == clock - 1);
                                } else {
                                    assert(old_prev[v] == self.prev@[v]);
                                    assert(prev_edge_ok(
                                        g,
                                        params,
                                        start_index as int,
                                        old_cost,
                                        old_stamp,
                                        v,
                                        old_prev[v].unwrap(),
                                    ));
                                    let kk = old_prev[v].unwrap();
                                    lemma_edge_cost_nonneg(g.edges_view()[kk as int], params);
                                    lemma_edge_ends(&g, kk as int);
                                    let src = g.edges_view()[kk as int].source_index as int;
                                    assert(self.cost@[v] == old_cost[v]);
                                    assert(stamp[v] == old_stamp[v]);
                                    if src == t {
                                        assert(self.cost@[src] < old_cost[src]);
                                    } else {
                                        assert(self.cost@[src] == old_cost[src]);
                                        assert(stamp[src] == old_stamp[src]);
                                    }
                                }
                            }
                            assert forall|v: int|
                                0 <= v < self.cost@.len() && #[trigger] self.cost@[v] < u32::MAX
                                    && v != start_index implies self.prev@[v].is_some() by {
                                if v != t {
                                    assert(old_cost[v] == self.cost@[v]);
                                }
                            }
                            assert(self.queue@.count(next) > 0);
                            assert forall|v: int|
                                0 <= v < self.cost@.len() && #[trigger] self.cost@[v] < u32::MAX
                                    && v != u implies pending(self.queue@, self.cost@, v) || closed(
                                    g,
                                    params,
                                    self.cost@,
                                    goal_id,
                                    v,
                                ) by {
                                if v == t {
                                    assert(next.index == v && next.cost == self.cost@[v]);
                                } else {
                                    assert(old_cost[v] == self.cost@[v]);
                                    if pending(old_queue, old_cost, v) {
                                        let x = choose|x: RouterNode|
                                            #[trigger] old_queue.count(x) > 0 && x.index == v
                                                && x.cost == old_cost[v];
                                        assert(self.queue@.count(x) >= old_queue.count(x));
                                    } else {
                                        assert(closed(g, params, old_cost, goal_id, v));
                                        assert forall|x: int| 0 <= x < n implies #[trigger] self.cost@[x] <= old_cost[x] by {
                                            if x == t {
                                                assert(self.cost@[x] < old_cost[x]);
                                            }
                                        }
                                        assert forall|kk: int|
                                            g.first_edge(v) <= kk < g.end_edge(v) && relevant(
                                                #[trigger] g.edges_view()[kk],
                                                params,
                                            ) implies self.cost@[g.edges_view()[kk].target_index as int]
                                            <= self.cost@[v] + edge_cost(
                                            g.edges_view()[kk],
                                            params.transport,
                                            params.routing,
                                        ) by {
                                            crate::graph::lemma_offsets_monotone(&g, v, v + 1);
                                            crate::graph::lemma_offsets_monotone(&g, v + 1, n as int);
                                            lemma_edge_ends(&g, kk);
                                            assert(old_cost[g.edges_view()[kk].target_index as int]
                                                <= old_cost[v] + edge_cost(
                                                g.edges_view()[kk],
                                                params.transport,
                                                params.routing,
                                            ));
                                        }
                                    }
                                }
                            }
                            assert forall|x: RouterNode| #[trigger] self.queue@.count(x) > 0 implies x.index
                                < self.cost@.len() && x.cost < u32::MAX && self.cost@[x.index as int]
                                <= x.cost by {
                                if x != next {
                                    assert(old_queue.count(x) > 0);
                                }
                            }
                            assert forall|x: RouterNode| #[trigger] self.queue@.count(x) > 0 implies x.heuristic
                                <= estimate(params, estimates@, x.index as int) by {
                                if x != next {
                                    assert(old_queue.count(x) > 0);
                                }
                            }
                            assert forall|kk: int|
                                first <= kk < k + 1 && relevant(#[trigger] g.edges_view()[kk], params)
                                    implies self.cost@[g.edges_view()[kk].target_index as int]
                                <= self.cost@[u as int] + edge_cost(
                                g.edges_view()[kk],
                                params.transport,
                                params.routing,
                            ) by {
                                lemma_edge_ends(&g, kk);
                                if kk == k {
                                    assert(g.edges_view()[kk].target_index == t);
                                    assert(self.cost@[t as int] == c as u32);
                                    assert(self.cost@[u as int] == node.cost);
                                } else {
                                    assert(old_cost[g.edges_view()[kk].target_index as int]
                                        <= old_cost[u as int] + edge_cost(
                                        g.edges_view()[kk],
                                        params.transport,
                                        params.routing,
                                    ));
                                }
                            }
                            assert forall|v: int| 0 <= v < n implies #[trigger] stamp[v] < clock by {
                            }
                        }
                    }
                }
                k += 1;
            }
            proof {
                assert(closed(g, params, self.cost@, goal_id, u as int));
            }
        }
        proof {
            assert forall|p: Seq<usize>|
                #[trigger] relevant_path(g, params, start_index as int, p) && path_cost(g, params, p)
                    < u32::MAX implies g.nodes_view()[path_end(g, start_index as int, p)].id
                != goal_id by {
                lemma_drained(g, params, start_index as int, self.cost@, goal_id, p);
            }
        }
        Err(RouteError::NoPath)
    }
}

} // verus!
