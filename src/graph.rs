//! The road graph in compressed sparse row form, with its spatial cell index.
use vstd::prelude::*;
use std::collections::HashMap;
use crate::edge::Edge;
use crate::grid;
use crate::node::Node;
use crate::osm::Coordinates;

verus! {

/// Node indices bucketed by the key of their tenth-of-a-degree cell.
pub type Cells = HashMap<i64, Vec<usize>>;

/// Packs a pair of cell numbers into one key; injective while the second
/// number stays within ±4096, which every `i32` coordinate does.
pub open spec fn pack_cell(c: (int, int)) -> int {
    c.0 * 8192 + c.1
}

/// The key of the cell that holds `c`.
pub open spec fn cell_key(c: Coordinates) -> int {
    pack_cell(c.cell())
}

/// The adjacency arrays are well formed: `offsets` is non-decreasing from 0 to
/// the number of edges, node `i`'s edges are `edges[offsets[i]..offsets[i + 1]]`
/// and every edge lies in the range of its source node, ends at a node and has a
/// distance.
#[verifier::opaque]
pub open spec fn csr_valid(nodes: Seq<Node>, offsets: Seq<usize>, edges: Seq<Edge>) -> bool {
    &&& offsets.len() == nodes.len() + 1
    &&& offsets[0] == 0
    &&& offsets[nodes.len() as int] == edges.len()
    &&& forall|i: int, j: int|
        0 <= i <= j <= nodes.len() ==> #[trigger] offsets[i] <= #[trigger] offsets[j]
    &&& forall|k: int|
        0 <= k < edges.len() ==> {
            let s = (#[trigger] edges[k]).source_index as int;
            &&& s < nodes.len()
            &&& offsets[s] <= k < offsets[s + 1]
            &&& edges[k].target_index < nodes.len()
            &&& edges[k].distance.is_some()
        }
}

/// The cell index holds each node in the list of its own cell, and only there.
#[verifier::opaque]
pub open spec fn cells_valid(nodes: Seq<Node>, cells: Map<i64, Vec<usize>>) -> bool {
    &&& forall|key: i64, t: int|
        #![trigger cells[key]@[t]]
        cells.contains_key(key) && 0 <= t < cells[key]@.len() ==> cells[key]@[t] < nodes.len()
            && cell_key(nodes[cells[key]@[t] as int].coordinates) == key
    &&& forall|i: int|
        0 <= i < nodes.len() ==> cells.contains_key(cell_key(#[trigger] nodes[i].coordinates) as i64)
            && cells[cell_key(nodes[i].coordinates) as i64]@.contains(i as usize)
}

/// An immutable road graph.
#[derive(Debug)]
pub struct Graph {
    nodes: Vec<Node>,
    offsets: Vec<usize>,
    edges: Vec<Edge>,
    cells: Cells,
}

impl Graph {
    pub closed spec fn nodes_view(&self) -> Seq<Node> {
        self.nodes@
    }

    pub closed spec fn offsets_view(&self) -> Seq<usize> {
        self.offsets@
    }

    pub closed spec fn edges_view(&self) -> Seq<Edge> {
        self.edges@
    }

    pub closed spec fn cells_view(&self) -> Map<i64, Vec<usize>> {
        self.cells@
    }

    pub open spec fn wf(&self) -> bool {
        &&& csr_valid(self.nodes_view(), self.offsets_view(), self.edges_view())
        &&& cells_valid(self.nodes_view(), self.cells_view())
    }

    /// The indices of node `i`'s outgoing edges.
    pub open spec fn first_edge(&self, i: int) -> int {
        self.offsets_view()[i] as int
    }

    pub open spec fn end_edge(&self, i: int) -> int {
        self.offsets_view()[i + 1] as int
    }

    /// Node `i`'s outgoing edges.
    pub open spec fn adjacency(&self, i: int) -> Seq<Edge> {
        self.edges_view().subrange(self.first_edge(i), self.end_edge(i))
    }

    /// A graph of the given arrays, with its cell index built from the nodes.
    pub fn new(nodes: Vec<Node>, offsets: Vec<usize>, edges: Vec<Edge>) -> (r: Self)
        requires
            csr_valid(nodes@, offsets@, edges@),
        ensures
            r.wf(),
            r.nodes_view() == nodes@,
            r.offsets_view() == offsets@,
            r.edges_view() == edges@,
    {
        let cells = grid::create(&nodes);
        Self { nodes, edges, offsets, cells }
    }

    /// A graph of the given arrays when they are well formed; `None` when
    /// they are not.
    pub fn from_parts(nodes: Vec<Node>, offsets: Vec<usize>, edges: Vec<Edge>) -> (r: Option<Self>)
        ensures
            r.is_some() == csr_valid(nodes@, offsets@, edges@),
            r.is_some() ==> r.unwrap().wf() && r.unwrap().nodes_view() == nodes@
                && r.unwrap().offsets_view() == offsets@ && r.unwrap().edges_view() == edges@,
    {
        if check_parts(&nodes, &offsets, &edges) {
            Some(Self::new(nodes, offsets, edges))
        } else {
            None
        }
    }

    pub fn num_nodes(&self) -> (r: usize)
        ensures
            r == self.nodes_view().len(),
    {
        self.nodes.len()
    }

    pub fn num_edges(&self) -> (r: usize)
        ensures
            r == self.edges_view().len(),
    {
        self.edges.len()
    }

    pub fn node(&self, index: usize) -> (r: &Node)
        requires
            index < self.nodes_view().len(),
        ensures
            *r == self.nodes_view()[index as int],
    {
        &self.nodes[index]
    }

    pub fn coordinates(&self, index: usize) -> (r: &Coordinates)
        requires
            index < self.nodes_view().len(),
        ensures
            *r == self.nodes_view()[index as int].coordinates,
    {
        &self.node(index).coordinates
    }

    /// The edge at position `k` of the edge array.
    pub fn edge(&self, k: usize) -> (r: &Edge)
        requires
            k < self.edges_view().len(),
        ensures
            *r == self.edges_view()[k as int],
    {
        &self.edges[k]
    }

    /// The position in the edge array of node `i`'s first outgoing edge, and
    /// one past its last.
    pub fn edge_range(&self, node_index: usize) -> (r: (usize, usize))
        requires
            self.wf(),
            node_index < self.nodes_view().len(),
        ensures
            r.0 == self.first_edge(node_index as int),
            r.1 == self.end_edge(node_index as int),
            r.0 <= r.1 <= self.edges_view().len(),
    {
        reveal(csr_valid);
        let len = self.offsets.len();
        assert(node_index < len - 1);
        let start = self.offsets[node_index];
        let end = self.offsets[node_index + 1];
        assert(self.offsets@[node_index as int] <= self.offsets@[node_index + 1]);
        assert(self.offsets@[node_index + 1] <= self.offsets@[self.nodes@.len() as int]);
        (start, end)
    }

    /// Node `i`'s outgoing edges.
    pub fn edges(&self, node_index: usize) -> (r: &[Edge])
        requires
            self.wf(),
            node_index < self.nodes_view().len(),
        ensures
            r@ == self.adjacency(node_index as int),
    {
        let (start, end) = self.edge_range(node_index);
        vstd::slice::slice_subrange(self.edges.as_slice(), start, end)
    }

    /// The node indices of the cell with the given key.
    pub fn cell(&self, key: i64) -> (r: Option<&Vec<usize>>)
        ensures
            match r {
                Some(v) => self.cells_view().contains_key(key) && *v == self.cells_view()[key],
                None => !self.cells_view().contains_key(key),
            },
    {
        broadcast use vstd::std_specs::hash::group_hash_axioms;
        self.cells.get(&key)
    }

    pub fn num_cells(&self) -> (r: usize)
        ensures
            r == self.cells_view().len(),
    {
        broadcast use vstd::std_specs::hash::group_hash_axioms;
        self.cells.len()
    }
}

/// Whether the arrays are well formed.
fn check_parts(nodes: &Vec<Node>, offsets: &Vec<usize>, edges: &Vec<Edge>) -> (r: bool)
    ensures
        r == csr_valid(nodes@, offsets@, edges@),
{
    reveal(csr_valid);
    let n = nodes.len();
    let m = edges.len();
    if offsets.len() == 0 || offsets.len() - 1 != n || offsets[0] != 0 || offsets[n] != m {
        return false;
    }
    let mut i: usize = 0;
    while i < n
        invariant
            n == nodes@.len(),
            offsets@.len() == n + 1,
            i <= n,
            forall|a: int, b: int| 0 <= a <= b <= i ==> #[trigger] offsets@[a] <= #[trigger] offsets@[b],
        decreases n - i,
    {
        if offsets[i] > offsets[i + 1] {
            proof {
                reveal(csr_valid);
                assert(!(offsets@[i as int] <= offsets@[i + 1]));
            }
            return false;
        }
        proof {
            assert forall|a: int, b: int| 0 <= a <= b <= i + 1 implies #[trigger] offsets@[a]
                <= #[trigger] offsets@[b] by {
                if b == i + 1 && a <= i {
                    assert(offsets@[a] <= offsets@[i as int]);
                }
            }
        }
        i += 1;
    }
    let mut k: usize = 0;
    while k < m
        invariant
            n == nodes@.len(),
            m == edges@.len(),
            offsets@.len() == n + 1,
            k <= m,
            forall|j: int| 0 <= j < k ==> {
                let s = (#[trigger] edges@[j]).source_index as int;
                &&& s < n
                &&& offsets@[s] <= j < offsets@[s + 1]
                &&& edges@[j].target_index < n
                &&& edges@[j].distance.is_some()
            },
        decreases m - k,
    {
        let e = &edges[k];
        let s = e.source_index;
        assert(edges@[k as int] == *e);
        if s >= n || offsets[s] > k || k >= offsets[s + 1] || e.target_index >= n
            || e.distance.is_none() {
            proof {
                reveal(csr_valid);
            }
            return false;
        }
        k += 1;
    }
    true
}

/// The arrays of a well-formed graph are well formed, so handing them back to
/// `Graph::from_parts` (whose contract then gives `Some` with the same nodes,
/// offsets and edges) accepts them.
pub proof fn lemma_parts_round_trip(g: &Graph)
    requires
        g.wf(),
    ensures
        csr_valid(g.nodes_view(), g.offsets_view(), g.edges_view()),
{
}

/// Every node's edges start at that node.
pub proof fn lemma_adjacency_sources(g: &Graph, i: int, k: int)
    requires
        g.wf(),
        0 <= i < g.nodes_view().len(),
        0 <= k < g.adjacency(i).len(),
    ensures
        g.adjacency(i)[k].source_index == i,
{
    reveal(csr_valid);
    assert(g.offsets_view()[i] <= g.offsets_view()[i + 1]);
    assert(g.offsets_view()[i + 1] <= g.offsets_view()[g.nodes_view().len() as int]);
    assert(g.adjacency(i)[k] == g.edges_view()[g.first_edge(i) + k]);
    let s = g.edges_view()[g.first_edge(i) + k].source_index as int;
    if s < i {
        assert(g.offsets_view()[s + 1] <= g.offsets_view()[i]);
    } else if s > i {
        assert(g.offsets_view()[i + 1] <= g.offsets_view()[s]);
    }
}

/// The offsets end at the number of edges and never decrease.
pub proof fn lemma_offsets_monotone(g: &Graph, i: int, j: int)
    requires
        g.wf(),
        0 <= i <= j <= g.nodes_view().len(),
    ensures
        g.offsets_view()[i] <= g.offsets_view()[j],
        g.offsets_view()[g.nodes_view().len() as int] == g.edges_view().len(),
{
    reveal(csr_valid);
}

/// Every edge joins two nodes and has a distance.
pub proof fn lemma_edge_ends(g: &Graph, k: int)
    requires
        g.wf(),
        0 <= k < g.edges_view().len(),
    ensures
        g.edges_view()[k].source_index < g.nodes_view().len(),
        g.edges_view()[k].target_index < g.nodes_view().len(),
        g.edges_view()[k].distance.is_some(),
        g.first_edge(g.edges_view()[k].source_index as int) <= k < g.end_edge(
            g.edges_view()[k].source_index as int,
        ),
{
    reveal(csr_valid);
}

} // verus!
