//! The spatial cell index and nearest-node snapping.
use vstd::prelude::*;
use std::collections::HashMap;
use crate::edge::relevant;
use crate::graph::{Cells, Graph, cell_key, cells_valid, pack_cell};
use crate::node::Node;
use crate::options::Params;
use crate::osm::{Coordinates, round_to_tenth};
use crate::router::RouteError;

verus! {

broadcast use vstd::std_specs::hash::group_hash_axioms;

proof fn lemma_cell_bounds(v: i32)
    ensures
        -2148 <= round_to_tenth(v as int) <= 2148,
{
}

/// The key of the cell that holds `c`.
pub fn key_of(c: &Coordinates) -> (r: i64)
    ensures
        r == cell_key(*c),
{
    proof {
        lemma_cell_bounds(c.lat);
        lemma_cell_bounds(c.lon);
    }
    c.lat_rounded() as i64 * 8192 + c.lon_rounded() as i64
}

/// Only non-empty lists of increasing node indices.
pub open spec fn lists_increasing(cells: Map<i64, Vec<usize>>) -> bool {
    forall|key: i64|
        #[trigger] cells.contains_key(key) ==> cells[key]@.len() > 0 && forall|a: int, b: int|
            0 <= a < b < cells[key]@.len() ==> #[trigger] cells[key]@[a] < #[trigger] cells[key]@[b]
}

/// Buckets each node index by the cell of its coordinates, in index order:
/// every node sits in its cell's list, every key is the cell of a node, and
/// each list holds distinct indices in increasing order.
pub fn create(nodes: &Vec<Node>) -> (r: Cells)
    ensures
        cells_valid(nodes@, r@),
        lists_increasing(r@),
{
    reveal(cells_valid);
    let mut cells: Cells = HashMap::new();
    let n = nodes.len();
    let mut i: usize = 0;
    while i < n
        invariant
            n == nodes@.len(),
            i <= n,
            cells_valid(nodes@.subrange(0, i as int), cells@),
            forall|key: i64, t: int|
                #![trigger cells@[key]@[t]]
                cells@.contains_key(key) && 0 <= t < cells@[key]@.len() ==> cells@[key]@[t] < i
                    && cell_key(nodes@[cells@[key]@[t] as int].coordinates) == key,
            lists_increasing(cells@),
        decreases n - i,
    {
        let key = key_of(&nodes[i].coordinates);
        let ghost old_cells = cells@;
        match cells.remove(&key) {
            Some(mut indices) => {
                indices.push(i);
                cells.insert(key, indices);
            },
            None => {
                let mut indices = Vec::new();
                indices.push(i);
                cells.insert(key, indices);
            },
        }
        proof {
            reveal(cells_valid);
            assert forall|k: i64| #[trigger] cells@.contains_key(k) implies cells@[k]@.len() > 0
                && forall|a: int, b: int|
                0 <= a < b < cells@[k]@.len() ==> #[trigger] cells@[k]@[a] < #[trigger] cells@[k]@[b] by {
                if k == key {
                    let len = cells@[k]@.len();
                    assert forall|a: int, b: int|
                        0 <= a < b < len implies #[trigger] cells@[k]@[a] < #[trigger] cells@[k]@[b] by {
                        if b == len - 1 && old_cells.contains_key(key) {
                            assert(cells@[k]@[a] == old_cells[key]@[a]);
                            assert(old_cells[key]@[a] < i);
                        } else if old_cells.contains_key(key) {
                            assert(cells@[k]@[a] == old_cells[key]@[a]);
                            assert(cells@[k]@[b] == old_cells[key]@[b]);
                        }
                    }
                } else {
                    assert(cells@[k] == old_cells[k]);
                }
            }
            let pre = nodes@.subrange(0, i as int);
            let post = nodes@.subrange(0, i + 1);
            assert forall|j: int| 0 <= j < post.len() implies cells@.contains_key(
                cell_key(#[trigger] post[j].coordinates) as i64,
            ) && cells@[cell_key(post[j].coordinates) as i64]@.contains(j as usize) by {
                if j < i {
                    assert(pre[j] == post[j]);
                    let kj = cell_key(pre[j].coordinates) as i64;
                    assert(old_cells.contains_key(kj));
                    assert(old_cells[kj]@.contains(j as usize));
                    if kj == key {
                        let t = choose|t: int| 0 <= t < old_cells[kj]@.len() && old_cells[kj]@[t]
                            == j as usize;
                        assert(cells@[kj]@[t] == j as usize);
                    } else {
                        assert(cells@[kj] == old_cells[kj]);
                    }
                } else {
                    assert(post[j] == nodes@[i as int]);
                    let len = cells@[key]@.len();
                    assert(cells@[key]@[len - 1] == i);
                }
            }
        }
        i += 1;
    }
    assert(nodes@.subrange(0, n as int) =~= nodes@);
    cells
}

/// The best candidate seen so far and its distance in meters.
#[derive(Debug, Clone, Copy, PartialEq, Eq, Structural)]
pub struct Neighbor {
    pub index: Option<usize>,
    pub dist: u32,
}

impl Neighbor {
    /// No candidate yet, at the largest distance.
    pub fn new() -> (r: Self)
        ensures
            r == (Neighbor { index: None, dist: u32::MAX }),
    {
        Self { index: None, dist: u32::MAX }
    }
}

/// Some edge of node `i` may be used with `params`.
pub open spec fn has_relevant_edge(g: Graph, params: Params, i: int) -> bool {
    exists|k: int| g.first_edge(i) <= k < g.end_edge(i) && relevant(#[trigger] g.edges_view()[k], params)
}

/// `best` after looking at node `i`: it takes `i`'s place when `i` has a
/// usable edge and is strictly closer.
pub open spec fn consider(g: Graph, params: Params, dist: Seq<u32>, best: Neighbor, i: usize) -> Neighbor {
    if has_relevant_edge(g, params, i as int) && dist[i as int] < best.dist {
        Neighbor { index: Some(i), dist: dist[i as int] }
    } else {
        best
    }
}

/// `best` after looking at the nodes `list[k..]` in order.
pub open spec fn scan_list(
    g: Graph,
    params: Params,
    dist: Seq<u32>,
    best: Neighbor,
    list: Seq<usize>,
    k: int,
) -> Neighbor
    decreases list.len() - k,
{
    if k >= list.len() || k < 0 {
        best
    } else {
        scan_list(g, params, dist, consider(g, params, dist, best, list[k]), list, k + 1)
    }
}

/// `best` after looking at the cells `cells[c..]` in order.
pub open spec fn scan_cells(
    g: Graph,
    params: Params,
    dist: Seq<u32>,
    best: Neighbor,
    cells: Seq<Seq<usize>>,
    c: int,
) -> Neighbor
    decreases cells.len() - c,
{
    if c >= cells.len() || c < 0 {
        best
    } else {
        scan_cells(g, params, dist, scan_list(g, params, dist, best, cells[c], 0), cells, c + 1)
    }
}

/// Largest cell number of any `i32` coordinate.
pub const CELL_BOUND: i128 = 2148;

/// The nodes of cell `(a, b)`, if it holds any.
pub open spec fn cell_at(g: Graph, a: int, b: int) -> Option<Seq<usize>> {
    if -2148 <= a <= 2148 && -2148 <= b <= 2148 && g.cells_view().contains_key(
        pack_cell((a, b)) as i64,
    ) {
        Some(g.cells_view()[pack_cell((a, b)) as i64]@)
    } else {
        None
    }
}

/// The cells met from position `(i, j)` on, row by row, of the ring at
/// distance `r` degrees around `(lat, lon)`: cells whose latitude or
/// longitude is shifted by exactly `r` whole degrees.
pub open spec fn ring_cells(g: Graph, lat: int, lon: int, r: int, i: int, j: int) -> Seq<Seq<usize>>
    decreases r + 1 - i, r + 1 - j,
{
    if i > r || r < 0 {
        Seq::empty()
    } else if j > r {
        ring_cells(g, lat, lon, r, i + 1, -r)
    } else {
        let rest = ring_cells(g, lat, lon, r, i, j + 1);
        let cell = cell_at(
            g,
            round_to_tenth(lat + 10_000_000 * i),
            round_to_tenth(lon + 10_000_000 * j),
        );
        if (i == r || i == -r || j == r || j == -r) && cell.is_some() {
            seq![cell.unwrap()] + rest
        } else {
            rest
        }
    }
}

/// The best node of the ring at distance `r`.
pub open spec fn ring_best(g: Graph, params: Params, dist: Seq<u32>, q: Coordinates, r: int) -> Neighbor {
    scan_cells(
        g,
        params,
        dist,
        Neighbor { index: None, dist: u32::MAX },
        ring_cells(g, q.lat as int, q.lon as int, r, -r, -r),
        0,
    )
}

/// Widening the search ring by ring from radius `r`, while each ring improves
/// on `best`, below radius `max`.
pub open spec fn widen(
    g: Graph,
    params: Params,
    dist: Seq<u32>,
    q: Coordinates,
    best: Neighbor,
    r: int,
    max: int,
) -> Neighbor
    decreases max - r,
{
    if r >= max {
        best
    } else {
        let ring = ring_best(g, params, dist, q, r);
        if best.index.is_none() || best.dist > ring.dist {
            widen(g, params, dist, q, ring, r + 1, max)
        } else {
            best
        }
    }
}

/// The snapped node of a query at `q`, as nearest_neighbor computes it.
pub open spec fn snap(g: Graph, params: Params, dist: Seq<u32>, q: Coordinates) -> Result<usize, RouteError> {
    let own = cell_at(g, q.cell().0, q.cell().1);
    if own.is_none() {
        Err(RouteError::PointNotOnMap)
    } else {
        let first = scan_list(g, params, dist, Neighbor { index: None, dist: u32::MAX }, own.unwrap(), 0);
        let best = widen(g, params, dist, q, first, 1, (g.cells_view().len() / 10) as int);
        match best.index {
            Some(i) => Ok(i),
            None => Err(RouteError::NoTransportMatch),
        }
    }
}

impl Graph {
    /// The cell `(a, b)`'s nodes, if it holds any.
    fn cell_at(&self, a: i128, b: i128) -> (r: Option<&Vec<usize>>)
        ensures
            match r {
                Some(v) => cell_at(*self, a as int, b as int) == Some(v@),
                None => cell_at(*self, a as int, b as int).is_none(),
            },
    {
        if a < -CELL_BOUND || a > CELL_BOUND || b < -CELL_BOUND || b > CELL_BOUND {
            return None;
        }
        let key = (a * 8192 + b) as i64;
        self.cell(key)
    }

    /// Whether some edge of node `i` may be used with `params`.
    fn any_relevant(&self, i: usize, params: &Params) -> (r: bool)
        requires
            self.wf(),
            i < self.nodes_view().len(),
        ensures
            r == has_relevant_edge(*self, *params, i as int),
    {
        let (first, end) = self.edge_range(i);
        let mut k = first;
        while k < end
            invariant
                self.wf(),
                first == self.first_edge(i as int),
                end == self.end_edge(i as int),
                first <= k <= end,
                end <= self.edges_view().len(),
                forall|kk: int| first <= kk < k ==> !relevant(#[trigger] self.edges_view()[kk], *params),
            decreases end - k,
        {
            if self.edge(k).is_relevant(params) {
                return true;
            }
            k += 1;
        }
        false
    }

    /// The closest node with a usable edge among the given cells.
    fn closest(&self, cells: &Vec<&Vec<usize>>, params: &Params, dist: &Vec<u32>) -> (r: Neighbor)
        requires
            self.wf(),
            dist@.len() == self.nodes_view().len(),
            forall|c: int, t: int|
                0 <= c < cells@.len() && 0 <= t < cells@[c]@.len() ==> #[trigger] cells@[c]@[t]
                    < self.nodes_view().len(),
        ensures
            r == scan_cells(
                *self,
                *params,
                dist@,
                Neighbor { index: None, dist: u32::MAX },
                cells@.map_values(|v: &Vec<usize>| v@),
                0,
            ),
            r.index.is_some() ==> r.index.unwrap() < self.nodes_view().len(),
    {
        let ghost all = cells@.map_values(|v: &Vec<usize>| v@);
        let mut best = Neighbor::new();
        let mut c: usize = 0;
        while c < cells.len()
            invariant
                self.wf(),
                dist@.len() == self.nodes_view().len(),
                all == cells@.map_values(|v: &Vec<usize>| v@),
                forall|c: int, t: int|
                    0 <= c < cells@.len() && 0 <= t < cells@[c]@.len() ==> #[trigger] cells@[c]@[t]
                        < self.nodes_view().len(),
                c <= cells@.len(),
                best.index.is_some() ==> best.index.unwrap() < self.nodes_view().len(),
                scan_cells(*self, *params, dist@, best, all, c as int) == scan_cells(
                    *self,
                    *params,
                    dist@,
                    Neighbor { index: None, dist: u32::MAX },
                    all,
                    0,
                ),
            decreases cells@.len() - c,
        {
            let list = cells[c];
            let ghost before = best;
            let mut t: usize = 0;
            while t < list.len()
                invariant
                    self.wf(),
                    dist@.len() == self.nodes_view().len(),
                    forall|t: int| 0 <= t < list@.len() ==> #[trigger] list@[t] < self.nodes_view().len(),
                    t <= list@.len(),
                    best.index.is_some() ==> best.index.unwrap() < self.nodes_view().len(),
                    scan_list(*self, *params, dist@, best, list@, t as int) == scan_list(
                        *self,
                        *params,
                        dist@,
                        before,
                        list@,
                        0,
                    ),
                decreases list@.len() - t,
            {
                let i = list[t];
                if self.any_relevant(i, params) && dist[i] < best.dist {
                    best = Neighbor { index: Some(i), dist: dist[i] };
                }
                t += 1;
            }
            c += 1;
        }
        best
    }

    /// The cells of the ring at distance `radius` degrees around `coords`.
    fn adjacent_cells(&self, coords: &Coordinates, radius: i128) -> (r: Vec<&Vec<usize>>)
        requires
            self.wf(),
            0 <= radius <= u64::MAX,
        ensures
            r@.map_values(|v: &Vec<usize>| v@) == ring_cells(
                *self,
                coords.lat as int,
                coords.lon as int,
                radius as int,
                -radius as int,
                -radius as int,
            ),
            forall|c: int, t: int|
                0 <= c < r@.len() && 0 <= t < r@[c]@.len() ==> #[trigger] r@[c]@[t]
                    < self.nodes_view().len(),
    {
        let ghost total = ring_cells(
            *self,
            coords.lat as int,
            coords.lon as int,
            radius as int,
            -radius as int,
            -radius as int,
        );
        let mut cells: Vec<&Vec<usize>> = Vec::new();
        let mut i: i128 = -radius;
        while i <= radius
            invariant
                self.wf(),
                0 <= radius <= u64::MAX,
                -radius <= i <= radius + 1,
                cells@.map_values(|v: &Vec<usize>| v@) + ring_cells(
                    *self,
                    coords.lat as int,
                    coords.lon as int,
                    radius as int,
                    i as int,
                    -radius as int,
                ) == total,
                forall|c: int, t: int|
                    0 <= c < cells@.len() && 0 <= t < cells@[c]@.len() ==> #[trigger] cells@[c]@[t]
                        < self.nodes_view().len(),
            decreases radius + 1 - i,
        {
            let mut j: i128 = -radius;
            while j <= radius
                invariant
                    self.wf(),
                    0 <= radius <= u64::MAX,
                    -radius <= i <= radius,
                    -radius <= j <= radius + 1,
                    cells@.map_values(|v: &Vec<usize>| v@) + ring_cells(
                        *self,
                        coords.lat as int,
                        coords.lon as int,
                        radius as int,
                        i as int,
                        j as int,
                    ) == total,
                    forall|c: int, t: int|
                        0 <= c < cells@.len() && 0 <= t < cells@[c]@.len() ==> #[trigger] cells@[
                            c]@[t] < self.nodes_view().len(),
                decreases radius + 1 - j,
            {
                let ghost before = cells@;
                if i == radius || i == -radius || j == radius || j == -radius {
                    proof {
                        assert(-10_000_000 * (u64::MAX as int) <= 10_000_000 * i <= 10_000_000 * (
                        u64::MAX as int)) by (nonlinear_arith)
                            requires
                                -radius <= i <= radius,
                                0 <= radius <= u64::MAX,
                        ;
                        assert(-10_000_000 * (u64::MAX as int) <= 10_000_000 * j <= 10_000_000 * (
                        u64::MAX as int)) by (nonlinear_arith)
                            requires
                                -radius <= j <= radius,
                                0 <= radius <= u64::MAX,
                        ;
                    }
                    let a = round_wide(coords.lat as i128 + 10_000_000 * i);
                    let b = round_wide(coords.lon as i128 + 10_000_000 * j);
                    match self.cell_at(a, b) {
                        Some(cell) => {
                            proof {
                                reveal(cells_valid);
                            }
                            cells.push(cell);
                            proof {
                                assert(cells@.map_values(|v: &Vec<usize>| v@) =~= before.map_values(
                                    |v: &Vec<usize>| v@,
                                ).push(cell@));
                            }
                        },
                        None => {},
                    }
                }
                j += 1;
            }
            i += 1;
        }
        proof {
            assert(cells@.map_values(|v: &Vec<usize>| v@) =~= total);
        }
        cells
    }

    /// The node that a query at `coords` snaps to: the closest node with a
    /// usable edge in the query's cell, improved ring by ring while a ring
    /// holds a strictly closer one. `dist[i]` is the distance in meters from
    /// the query to node `i`.
    pub fn nearest_neighbor(&self, coords: &Coordinates, params: &Params, dist: &Vec<u32>) -> (r:
        Result<usize, RouteError>)
        requires
            self.wf(),
            dist@.len() == self.nodes_view().len(),
        ensures
            r == snap(*self, *params, dist@, *coords),
            r is Ok ==> r.unwrap() < self.nodes_view().len(),
    {
        let exact_cell = match self.cell_at(coords.lat_rounded() as i128, coords.lon_rounded() as i128) {
            Some(cell) => cell,
            None => {
                return Err(RouteError::PointNotOnMap);
            },
        };
        proof {
            reveal(cells_valid);
        }
        let mut own: Vec<&Vec<usize>> = Vec::new();
        own.push(exact_cell);
        proof {
            assert(own@.map_values(|v: &Vec<usize>| v@) =~= seq![exact_cell@]);
            let first = scan_list(
                *self,
                *params,
                dist@,
                Neighbor { index: None, dist: u32::MAX },
                exact_cell@,
                0,
            );
            assert(scan_cells(*self, *params, dist@, first, seq![exact_cell@], 1) == first);
            assert(scan_cells(
                *self,
                *params,
                dist@,
                Neighbor { index: None, dist: u32::MAX },
                seq![exact_cell@],
                0,
            ) == scan_list(
                *self,
                *params,
                dist@,
                Neighbor { index: None, dist: u32::MAX },
                exact_cell@,
                0,
            ));
        }
        let mut best = self.closest(&own, params, dist);
        let max_radius = self.num_cells() / 10;
        let ghost target = widen(*self, *params, dist@, *coords, best, 1, max_radius as int);
        let mut radius: usize = 1;
        while radius < max_radius
            invariant_except_break
                self.wf(),
                dist@.len() == self.nodes_view().len(),
                max_radius == self.cells_view().len() / 10,
                1 <= radius,
                best.index.is_some() ==> best.index.unwrap() < self.nodes_view().len(),
                widen(*self, *params, dist@, *coords, best, radius as int, max_radius as int)
                    == target,
            ensures
                best == target,
                best.index.is_some() ==> best.index.unwrap() < self.nodes_view().len(),
            decreases max_radius - radius,
        {
            let adjacent_cells = self.adjacent_cells(coords, radius as i128);
            let adjacent = self.closest(&adjacent_cells, params, dist);
            if best.index.is_none() || best.dist > adjacent.dist {
                best = adjacent;
            } else {
                break;
            }
            radius += 1;
        }
        proof {
            if best.index.is_some() {
                reveal(cells_valid);
            }
        }
        match best.index {
            Some(i) => Ok(i),
            None => Err(RouteError::NoTransportMatch),
        }
    }
}

/// `v / 10^6` rounded to the nearest integer, halves away from zero.
fn round_wide(v: i128) -> (r: i128)
    requires
        -0x10_0000_0000_0000_0000_0000_0000 < v < 0x10_0000_0000_0000_0000_0000_0000,
    ensures
        r == round_to_tenth(v as int),
{
    if v >= 0 {
        (v + 500_000) / 1_000_000
    } else {
        -((-v + 500_000) / 1_000_000)
    }
}

} // verus!
