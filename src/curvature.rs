//! How twisty a route is: one angle per node, each scored by how sharply the
//! route bends there.
use vstd::prelude::*;

verus! {

/// The score of the angle at one node, in whole degrees rounded down: 6 below
/// 160, 2 below 170, 1 below 175, else 0; a node without an angle scores 0.
/// The thresholds are whole degrees, so rounding an angle down keeps its score.
pub open spec fn angle_score(angle: Option<u32>) -> int {
    match angle {
        Some(a) => if a < 160 {
            6
        } else if a < 170 {
            2
        } else if a < 175 {
            1
        } else {
            0
        },
        None => 0,
    }
}

/// The scores of a route's angles added up.
pub open spec fn score_sum(radii: Seq<Option<u32>>) -> int
    decreases radii.len(),
{
    if radii.len() == 0 {
        0
    } else {
        score_sum(radii.drop_last()) + angle_score(radii.last())
    }
}

/// One angle per node from the angles at the inner nodes: the first and the
/// last inner angle stand again for the two end nodes; a route of two nodes
/// has no angle at either.
pub open spec fn per_node(inner: Seq<Option<u32>>) -> Seq<Option<u32>> {
    if inner.len() == 0 {
        seq![None, None]
    } else {
        seq![inner[0]] + inner + seq![inner.last()]
    }
}

pub fn score(angle: Option<u32>) -> (r: u32)
    ensures
        r == angle_score(angle),
{
    match angle {
        Some(a) => if a < 160 {
            6
        } else if a < 170 {
            2
        } else if a < 175 {
            1
        } else {
            0
        },
        None => 0,
    }
}

/// The angles of a route, one per node, from those at its inner nodes.
pub fn radii(inner: &Vec<Option<u32>>) -> (r: Vec<Option<u32>>)
    ensures
        r@ == per_node(inner@),
        r@.len() == inner@.len() + 2,
{
    let n = inner.len();
    let mut r: Vec<Option<u32>> = Vec::new();
    if n == 0 {
        r.push(None);
        r.push(None);
        assert(r@ =~= per_node(inner@));
        return r;
    }
    r.push(inner[0]);
    let mut i: usize = 0;
    while i < n
        invariant
            n == inner@.len(),
            n > 0,
            i <= n,
            r@ =~= seq![inner@[0]] + inner@.subrange(0, i as int),
        decreases n - i,
    {
        r.push(inner[i]);
        i += 1;
    }
    r.push(inner[n - 1]);
    assert(inner@.subrange(0, n as int) =~= inner@);
    assert(r@ =~= per_node(inner@));
    r
}

/// The curvature score of a route: the scores of its angles added up.
pub fn total_score(radii: &Vec<Option<u32>>) -> (r: u128)
    ensures
        r == score_sum(radii@),
{
    let n = radii.len();
    let mut total: u128 = 0;
    let mut i: usize = 0;
    while i < n
        invariant
            n == radii@.len(),
            i <= n,
            total == score_sum(radii@.subrange(0, i as int)),
            total <= 6 * i,
        decreases n - i,
    {
        proof {
            assert(radii@.subrange(0, i + 1).drop_last() =~= radii@.subrange(0, i as int));
        }
        total = total + score(radii[i]) as u128;
        i += 1;
    }
    assert(radii@.subrange(0, n as int) =~= radii@);
    total
}

/// A route of `n` nodes gets `n` angles, and its score is the sum of their
/// scores.
pub proof fn lemma_one_angle_per_node(inner: Seq<Option<u32>>, n: int)
    requires
        n >= 2,
        inner.len() == n - 2,
    ensures
        per_node(inner).len() == n,
        n > 2 ==> per_node(inner)[0] == inner[0] && per_node(inner)[n - 1] == inner[n - 3],
{
}

} // verus!
