//! Building the graph from the ways and nodes of an OSM extract.
use vstd::prelude::*;
use std::collections::HashMap;
use crate::edge::{Edge, Meta};
use crate::graph::{Graph, csr_valid};
use crate::node::Node;

verus! {

broadcast use {vstd::std_specs::hash::group_hash_axioms, vstd::seq_lib::group_to_multiset_ensures};

/// Edge `a` comes no later than edge `b` by (source, target).
pub open spec fn edge_le(a: Edge, b: Edge) -> bool {
    a.source_index < b.source_index || (a.source_index == b.source_index && a.target_index
        <= b.target_index)
}

pub open spec fn sorted_edges(es: Seq<Edge>) -> bool {
    forall|i: int, j: int| 0 <= i <= j < es.len() ==> edge_le(#[trigger] es[i], #[trigger] es[j])
}

/// Relies on `slice::sort_by_key`: a stable sort that leaves the same edges
/// in non-decreasing (source, target) order.
#[verifier::external_body]
fn sort_edges(edges: &mut Vec<Edge>)
    ensures
        final(edges)@.to_multiset() == old(edges)@.to_multiset(),
        sorted_edges(final(edges)@),
{
    edges.sort_by_key(|e| (e.source_index, e.target_index));
}

/// The edges that a way emits between its `i - 1`-th and `i`-th node: the
/// reverse edge first, unless the way is one-way.
pub open spec fn step_edges(m: Map<i64, usize>, ids: Seq<i64>, i: int, meta: Meta, oneway: bool) -> Seq<
    Edge,
> {
    let s = m[ids[i - 1]];
    let t = m[ids[i]];
    let forward = Edge { source_index: s, target_index: t, distance: None, meta };
    let reverse = Edge { source_index: t, target_index: s, distance: None, meta };
    if oneway {
        seq![forward]
    } else {
        seq![reverse, forward]
    }
}

/// The edges that a way emits between its first `n` nodes.
pub open spec fn way_edges(m: Map<i64, usize>, ids: Seq<i64>, n: int, meta: Meta, oneway: bool) -> Seq<
    Edge,
>
    decreases n,
{
    if n <= 1 {
        Seq::empty()
    } else {
        way_edges(m, ids, n - 1, meta, oneway) + step_edges(m, ids, n - 1, meta, oneway)
    }
}

/// The grade in percent between two elevations in millimeters over
/// `distance` meters, rounded and capped at 255; absent unless both
/// elevations are known.
pub open spec fn grade_of(a: Option<i32>, b: Option<i32>, distance: int) -> Option<u8> {
    match (a, b) {
        (Some(x), Some(y)) => {
            let rise = if x >= y { x - y } else { y - x };
            let g = if distance == 0 {
                if rise == 0 { 0 } else { 255 }
            } else {
                (rise + 5 * distance) / (10 * distance)
            };
            Some(if g > 255 { 255u8 } else { g as u8 })
        },
        _ => None,
    }
}

/// The grade of an edge between `source` and `target`, `distance` meters
/// apart.
pub fn grade(source: &Node, target: &Node, distance: u32) -> (r: Option<u8>)
    ensures
        r == grade_of(source.meta.elevation, target.meta.elevation, distance as int),
{
    match (source.meta.elevation, target.meta.elevation) {
        (Some(x), Some(y)) => {
            let rise: u64 = if x >= y {
                (x as i64 - y as i64) as u64
            } else {
                (y as i64 - x as i64) as u64
            };
            let g: u64 = if distance == 0 {
                if rise == 0 { 0 } else { 255 }
            } else {
                (rise + 5 * distance as u64) / (10 * distance as u64)
            };
            Some(if g > 255 { 255u8 } else { g as u8 })
        },
        _ => None,
    }
}

/// Edge `e` with its length set to `d` meters and its grade derived from its
/// end nodes' elevations.
pub open spec fn measured(nodes: Seq<Node>, e: Edge, d: u32) -> Edge {
    Edge {
        distance: Some(d),
        meta: Meta {
            grade: grade_of(
                nodes[e.source_index as int].meta.elevation,
                nodes[e.target_index as int].meta.elevation,
                d as int,
            ),
            ..e.meta
        },
        ..e
    }
}

/// The assignment after meeting node id `id`: a new id gets the next index.
pub open spec fn assign_step(m: Map<i64, usize>, c: nat, id: i64) -> (Map<i64, usize>, nat) {
    if m.contains_key(id) {
        (m, c)
    } else {
        (m.insert(id, c as usize), c + 1)
    }
}

/// The assignment after meeting the node ids `ids` in order.
pub open spec fn assign(m: Map<i64, usize>, c: nat, ids: Seq<i64>) -> (Map<i64, usize>, nat)
    decreases ids.len(),
{
    if ids.len() == 0 {
        (m, c)
    } else {
        let (m2, c2) = assign_step(m, c, ids[0]);
        assign(m2, c2, ids.drop_first())
    }
}

/// The node index assignment of a graph under construction: each OSM node id
/// gets the next index the first time a way mentions it.
pub struct Pbf {
    node_indices: HashMap<i64, usize>,
    number_nodes: usize,
}

impl Pbf {
    pub closed spec fn indices(&self) -> Map<i64, usize> {
        self.node_indices@
    }

    pub closed spec fn count(&self) -> nat {
        self.number_nodes as nat
    }

    /// Every assigned index lies below the count, and distinct ids have
    /// distinct indices.
    pub open spec fn wf(&self) -> bool {
        &&& forall|id: i64| #[trigger] self.indices().contains_key(id) ==> self.indices()[id] < self.count()
        &&& forall|a: i64, b: i64|
            #[trigger] self.indices().contains_key(a) && #[trigger] self.indices().contains_key(b)
                && a != b ==> self.indices()[a] != self.indices()[b]
    }

    pub fn new() -> (r: Self)
        ensures
            r.wf(),
            r.count() == 0,
            r.indices() == Map::<i64, usize>::empty(),
    {
        Self { node_indices: HashMap::new(), number_nodes: 0 }
    }

    /// The number of distinct node ids seen.
    pub fn number_nodes(&self) -> (r: usize)
        ensures
            r == self.count(),
    {
        self.number_nodes
    }

    /// The index of a node id, if a way has mentioned it.
    pub fn node_index(&self, id: i64) -> (r: Option<usize>)
        ensures
            r == (if self.indices().contains_key(id) {
                Some(self.indices()[id])
            } else {
                None
            }),
    {
        match self.node_indices.get(&id) {
            Some(i) => Some(*i),
            None => None,
        }
    }

    /// Gives `id` the next index, unless it has one.
    pub fn insert_node_id(&mut self, id: i64)
        requires
            old(self).wf(),
            old(self).count() < usize::MAX,
        ensures
            final(self).wf(),
            old(self).indices().contains_key(id) ==> final(self).indices() == old(self).indices()
                && final(self).count() == old(self).count(),
            !old(self).indices().contains_key(id) ==> final(self).indices() == old(
                self,
            ).indices().insert(id, old(self).count() as usize) && final(self).count() == old(
                self,
            ).count() + 1,
    {
        if self.node_indices.contains_key(&id) {
            return;
        }
        let ghost before = self.node_indices@;
        self.node_indices.insert(id, self.number_nodes);
        self.number_nodes += 1;
        proof {
            assert(self.node_indices@ == before.insert(id, old(self).number_nodes));
            assert(before == old(self).indices());
            assert forall|k: i64| #[trigger] self.indices().contains_key(k) implies self.indices()[k]
                < self.count() by {
                if k != id {
                    assert(before.contains_key(k));
                    assert(before[k] < old(self).count());
                }
            }
            assert forall|a: i64, b: i64|
                #[trigger] self.indices().contains_key(a) && #[trigger] self.indices().contains_key(b)
                    && a != b implies self.indices()[a] != self.indices()[b] by {
                if a != id {
                    assert(before.contains_key(a));
                }
                if b != id {
                    assert(before.contains_key(b));
                }
            }
        }
    }

    /// Records a way with the given node ids: its nodes get indices, and
    /// `edges` gets its edges, both directions unless it is one-way.
    pub fn add_way(&mut self, node_ids: &Vec<i64>, meta: Meta, oneway: bool, edges: &mut Vec<Edge>)
        requires
            old(self).wf(),
            old(self).count() + node_ids@.len() < usize::MAX,
        ensures
            final(self).wf(),
            forall|id: i64| #[trigger] old(self).indices().contains_key(id) ==> final(self).indices().contains_key(id)
                && final(self).indices()[id] == old(self).indices()[id],
            forall|i: int| 0 <= i < node_ids@.len() ==> final(self).indices().contains_key(#[trigger] node_ids@[i]),
            final(self).count() <= old(self).count() + node_ids@.len(),
            (final(self).indices(), final(self).count()) == assign(
                old(self).indices(),
                old(self).count(),
                node_ids@,
            ),
            final(edges)@ == old(edges)@ + way_edges(final(self).indices(), node_ids@, node_ids@.len() as int, meta, oneway),
    {
        let n = node_ids.len();
        if n == 0 {
            return;
        }
        self.insert_node_id(node_ids[0]);
        assert(node_ids@.drop_first() =~= node_ids@.subrange(1, n as int));
        let mut i: usize = 1;
        while i < n
            invariant
                self.wf(),
                n == node_ids@.len(),
                old(self).count() + node_ids@.len() < usize::MAX,
                1 <= i <= n,
                self.count() <= old(self).count() + i,
                forall|id: i64| #[trigger] old(self).indices().contains_key(id) ==> self.indices().contains_key(id)
                    && self.indices()[id] == old(self).indices()[id],
                forall|j: int| 0 <= j < i ==> self.indices().contains_key(#[trigger] node_ids@[j]),
                edges@ == old(edges)@ + way_edges(self.indices(), node_ids@, i as int, meta, oneway),
                assign(self.indices(), self.count(), node_ids@.subrange(i as int, n as int)) == assign(
                    old(self).indices(),
                    old(self).count(),
                    node_ids@,
                ),
            decreases n - i,
        {
            let ghost before = self.indices();
            assert(node_ids@.subrange(i as int, n as int).drop_first() =~= node_ids@.subrange(
                i + 1,
                n as int,
            ));
            assert(node_ids@.subrange(i as int, n as int)[0] == node_ids@[i as int]);
            let source_index = self.node_index(node_ids[i - 1]).unwrap();
            let target_id = node_ids[i];
            assert(self.count() < usize::MAX);
            self.insert_node_id(target_id);
            let target_index = self.node_index(target_id).unwrap();
            let edge = Edge::new(source_index, target_index, meta);
            if !oneway {
                let reverse = Edge::new(target_index, source_index, meta);
                edges.push(reverse);
            }
            edges.push(edge);
            proof {
                lemma_way_edges_stable(before, self.indices(), node_ids@, i as int, meta, oneway);
                assert(forall|j: int| 0 <= j < i + 1 ==> self.indices().contains_key(#[trigger] node_ids@[j]));
            }
            i += 1;
        }
        proof {
            assert(forall|j: int| 0 <= j < n ==> self.indices().contains_key(#[trigger] node_ids@[j]));
            assert(node_ids@.subrange(n as int, n as int).len() == 0);
        }
    }

    /// The graph of the given nodes, indexed as this assignment says, and of
    /// the edges collected from the ways, with `distances[k]` the length in
    /// meters of edge `k`. The edges are sorted by (source, target), get their
    /// distances and grades, and the offsets are laid out by source.
    pub fn create_graph(&self, nodes: Vec<Node>, edges: Vec<Edge>, distances: &Vec<u32>) -> (r: Graph)
        requires
            nodes@.len() == self.count(),
            nodes@.len() < usize::MAX,
            distances@.len() == edges@.len(),
            forall|k: int| 0 <= k < edges@.len() ==> (#[trigger] edges@[k]).source_index < nodes@.len()
                && edges@[k].target_index < nodes@.len(),
        ensures
            r.wf(),
            r.nodes_view() == nodes@,
            r.edges_view().to_multiset() == Seq::new(
                edges@.len(),
                |k: int| measured(nodes@, edges@[k], distances@[k]),
            ).to_multiset(),
            sorted_edges(r.edges_view()),
            r.offsets_view().len() == nodes@.len() + 1,
            r.offsets_view()[0] == 0,
            r.offsets_view()[nodes@.len() as int] == edges@.len(),
            forall|i: int, j: int|
                0 <= i <= j <= nodes@.len() ==> #[trigger] r.offsets_view()[i]
                    <= #[trigger] r.offsets_view()[j],
    {
        let n = nodes.len();
        let ghost input = edges@;
        let ghost target = Seq::new(
            edges@.len(),
            |k: int| measured(nodes@, edges@[k], distances@[k]),
        );
        let mut edges = edges;
        let m = edges.len();
        let mut k: usize = 0;
        while k < m
            invariant
                n == nodes@.len(),
                m == edges@.len(),
                distances@.len() == m,
                k <= m,
                forall|j: int| 0 <= j < m ==> (#[trigger] edges@[j]).source_index < n
                    && edges@[j].target_index < n,
                forall|j: int| 0 <= j < k ==> (#[trigger] edges@[j]).distance.is_some(),
                input.len() == m,
                target == Seq::new(m as nat, |j: int| measured(nodes@, input[j], distances@[j])),
                forall|j: int| 0 <= j < k ==> #[trigger] edges@[j] == target[j],
                forall|j: int| k <= j < m ==> #[trigger] edges@[j] == input[j],
            decreases m - k,
        {
            let mut e = edges[k];
            let d = distances[k];
            e.distance = Some(d);
            e.meta.grade = grade(&nodes[e.source_index], &nodes[e.target_index], d);
            edges.set(k, e);
            k += 1;
        }
        assert(edges@ =~= target);
        let ghost before_sort = edges@;
        sort_edges(&mut edges);
        proof {
            assert(edges@.to_multiset().len() == before_sort.to_multiset().len());
            assert(edges@.len() == m);
            assert forall|j: int| 0 <= j < m implies (#[trigger] edges@[j]).source_index < n
                && edges@[j].target_index < n && edges@[j].distance.is_some() by {
                let e = edges@[j];
                assert(edges@[j] == e);
                assert(edges@.contains(e));
                assert(edges@.to_multiset().count(e) > 0);
                assert(before_sort.to_multiset().count(e) > 0);
                assert(before_sort.contains(e));
                let i0 = choose|i0: int| 0 <= i0 < before_sort.len() && before_sort[i0] == e;
                assert(before_sort[i0].source_index < n);
            }
        }
        let offsets = layout(&edges, &nodes);
        proof {
            reveal(csr_valid);
        }
        Graph::new(nodes, offsets, edges)
    }
}

proof fn lemma_way_edges_stable(
    before: Map<i64, usize>,
    after: Map<i64, usize>,
    ids: Seq<i64>,
    i: int,
    meta: Meta,
    oneway: bool,
)
    requires
        1 <= i < ids.len(),
        forall|j: int| 0 <= j < i ==> before.contains_key(#[trigger] ids[j]),
        forall|id: i64| #[trigger] before.contains_key(id) ==> after.contains_key(id) && after[id] == before[id],
    ensures
        way_edges(after, ids, i, meta, oneway) == way_edges(before, ids, i, meta, oneway),
    decreases i,
{
    if i > 1 {
        lemma_way_edges_stable(before, after, ids, i - 1, meta, oneway);
        assert(before.contains_key(ids[i - 2]));
        assert(before.contains_key(ids[i - 1]));
    }
}

/// The offsets of edges sorted by source: entry `i` is the position of the
/// first edge whose source is `i` or more.
fn layout(edges: &Vec<Edge>, nodes: &Vec<Node>) -> (r: Vec<usize>)
    requires
        sorted_edges(edges@),
        forall|j: int| 0 <= j < edges@.len() ==> (#[trigger] edges@[j]).source_index < nodes@.len()
            && edges@[j].target_index < nodes@.len() && edges@[j].distance.is_some(),
        nodes@.len() < usize::MAX,
    ensures
        csr_valid(nodes@, r@, edges@),
{
    let n = nodes.len();
    let m = edges.len();
    let mut offsets: Vec<usize> = Vec::new();
    let mut k: usize = 0;
    let mut i: usize = 0;
    while i <= n
        invariant
            n == nodes@.len(),
            n < usize::MAX,
            m == edges@.len(),
            sorted_edges(edges@),
            forall|j: int| 0 <= j < m ==> (#[trigger] edges@[j]).source_index < n,
            i <= n + 1,
            offsets@.len() == i,
            k <= m,
            forall|j: int| 0 <= j < k ==> (#[trigger] edges@[j]).source_index < i,
            forall|a: int| 0 <= a < i ==> #[trigger] offsets@[a] <= k,
            forall|a: int, b: int| 0 <= a <= b < i ==> #[trigger] offsets@[a] <= #[trigger] offsets@[b],
            forall|a: int, j: int|
                0 <= a < i && 0 <= j < offsets@[a] ==> #[trigger] edges@[j].source_index < a
                    && #[trigger] offsets@[a] == offsets@[a],
            forall|a: int|
                0 <= a < i && #[trigger] offsets@[a] < m ==> edges@[offsets@[a] as int].source_index
                    >= a,
            i == 0 ==> k == 0,
            i > 0 ==> offsets@[0] == 0,
        decreases n + 1 - i,
    {
        while k < m && edges[k].source_index < i
            invariant
                m == edges@.len(),
                k <= m,
                i == 0 ==> k == 0,
                forall|j: int| 0 <= j < k ==> (#[trigger] edges@[j]).source_index < i,
            decreases m - k,
        {
            k += 1;
        }
        offsets.push(k);
        i += 1;
    }
    proof {
        reveal(csr_valid);
        assert forall|j: int| 0 <= j < m implies {
            let s = (#[trigger] edges@[j]).source_index as int;
            &&& s < n
            &&& offsets@[s] <= j < offsets@[s + 1]
            &&& edges@[j].target_index < n
            &&& edges@[j].distance.is_some()
        } by {
            let s = edges@[j].source_index as int;
            if offsets@[s] > j {
                assert(edges@[j].source_index < s);
            }
            if offsets@[s + 1] <= j {
                let o = offsets@[s + 1] as int;
                assert(edge_le(edges@[o], edges@[j]));
            }
        }
    }
    offsets
}

} // verus!
