//! The adjacency table built from a topology description, and the traversal
//! that counts reachable nodes. The table is one bit-set per possible node
//! id; the traversal is a breadth-first search that may be restricted to an
//! allowed set of nodes, and its contract characterizes exactly the set of
//! nodes reachable by walks inside that set.

use crate::bitset::{
    bit_capacity, bits_of, bitset_contains, bitset_insert, bitset_ones, bitset_with_capacity,
};
use crate::config::{
    cfg_edge, connected, declared, drone_reaches, drones_connected, has_drone, is_drone_path,
    is_path, reaches, Config, NodeId,
};
use crate::MAX_NODES;
use vstd::prelude::*;
use vstd::set_lib::lemma_len_subset;

verus! {

/// Well-formed adjacency table: one bit-set per possible node id, each with
/// full capacity, and only valid node ids set.
pub open spec fn g_wf(g: Seq<fixedbitset::FixedBitSet>) -> bool {
    &&& g.len() == MAX_NODES
    &&& forall|a: int| 0 <= a < g.len() ==> bit_capacity(#[trigger] g[a]) == MAX_NODES
    &&& forall|a: int, x: usize|
        0 <= a < g.len() && #[trigger] bits_of(g[a]).contains(x) ==> x < MAX_NODES
}

/// The directed edge relation the table encodes.
pub open spec fn g_edge(g: Seq<fixedbitset::FixedBitSet>, a: usize, b: usize) -> bool {
    a < g.len() && bits_of(g[a as int]).contains(b)
}

/// The table encodes exactly the edges declared in the description.
pub open spec fn g_matches(g: Seq<fixedbitset::FixedBitSet>, c: Config) -> bool {
    &&& g_wf(g)
    &&& forall|a: NodeId, b: NodeId|
        #![trigger g_edge(g, a as usize, b as usize)]
        #![trigger cfg_edge(c, a, b)]
        g_edge(g, a as usize, b as usize) <==> cfg_edge(c, a, b)
}

/// A walk through the table that stays inside `allowed`: non-empty, every
/// node allowed, an edge between each pair of consecutive nodes.
pub open spec fn g_path_ok(
    g: Seq<fixedbitset::FixedBitSet>,
    allowed: Set<usize>,
    p: Seq<usize>,
) -> bool {
    &&& p.len() >= 1
    &&& forall|i: int| 0 <= i < p.len() ==> allowed.contains(#[trigger] p[i])
    &&& forall|i: int| 0 <= i < p.len() - 1 ==> #[trigger] g_edge(g, p[i], p[i + 1])
}

/// Node `b` can be reached from node `a` by a walk inside `allowed`.
pub open spec fn g_reaches(
    g: Seq<fixedbitset::FixedBitSet>,
    allowed: Set<usize>,
    a: usize,
    b: usize,
) -> bool {
    exists|p: Seq<usize>| g_path_ok(g, allowed, p) && p.first() == a && p.last() == b
}

/// Everything reachable from `start` by walks inside `allowed`.
pub open spec fn reach_set(
    g: Seq<fixedbitset::FixedBitSet>,
    allowed: Set<usize>,
    start: usize,
) -> Set<usize> {
    Set::new(|v: usize| g_reaches(g, allowed, start, v))
}

/// Every pair of allowed nodes is joined by a walk inside `allowed`.
pub open spec fn g_connected(g: Seq<fixedbitset::FixedBitSet>, allowed: Set<usize>) -> bool {
    forall|a: usize, b: usize|
        allowed.contains(a) && allowed.contains(b) ==> #[trigger] g_reaches(g, allowed, a, b)
}

/// The edge relation restricted to `allowed` is symmetric.
pub open spec fn g_sym(g: Seq<fixedbitset::FixedBitSet>, allowed: Set<usize>) -> bool {
    forall|a: usize, b: usize|
        allowed.contains(a) && allowed.contains(b) && #[trigger] g_edge(g, a, b) ==> g_edge(g, b, a)
}

/// An allowed node reaches itself by the one-node walk.
pub proof fn lemma_reach_refl(
    g: Seq<fixedbitset::FixedBitSet>,
    allowed: Set<usize>,
    s: usize,
)
    requires
        allowed.contains(s),
    ensures
        g_reaches(g, allowed, s, s),
{
    let p = seq![s];
    assert(g_path_ok(g, allowed, p));
    assert(p.first() == s && p.last() == s);
}

/// A walk can be extended along one more allowed edge.
pub proof fn lemma_reach_step(
    g: Seq<fixedbitset::FixedBitSet>,
    allowed: Set<usize>,
    s: usize,
    v: usize,
    b: usize,
)
    requires
        g_reaches(g, allowed, s, v),
        g_edge(g, v, b),
        allowed.contains(b),
    ensures
        g_reaches(g, allowed, s, b),
{
    let p = choose|p: Seq<usize>| g_path_ok(g, allowed, p) && p.first() == s && p.last() == v;
    let q = p.push(b);
    assert forall|i: int| 0 <= i < q.len() - 1 implies #[trigger] g_edge(g, q[i], q[i + 1]) by {
        if i < p.len() - 1 {
            assert(q[i] == p[i] && q[i + 1] == p[i + 1]);
        } else {
            assert(q[i] == p.last() && q[i + 1] == b);
        }
    }
    assert(g_path_ok(g, allowed, q));
    assert(q.first() == s && q.last() == b);
}

/// The endpoint of a walk inside `allowed` is itself allowed.
pub proof fn lemma_reach_in_allowed(
    g: Seq<fixedbitset::FixedBitSet>,
    allowed: Set<usize>,
    s: usize,
    v: usize,
)
    requires
        g_reaches(g, allowed, s, v),
    ensures
        allowed.contains(v),
{
    let p = choose|p: Seq<usize>| g_path_ok(g, allowed, p) && p.first() == s && p.last() == v;
    assert(allowed.contains(p[p.len() - 1]));
}

/// A set that contains `start` and is closed under allowed edges contains
/// the endpoint of every walk inside `allowed` that begins at `start`.
proof fn lemma_closed_path(
    g: Seq<fixedbitset::FixedBitSet>,
    allowed: Set<usize>,
    visited: Set<usize>,
    p: Seq<usize>,
)
    requires
        g_path_ok(g, allowed, p),
        visited.contains(p.first()),
        forall|v: usize, b: usize|
            visited.contains(v) && #[trigger] g_edge(g, v, b) && allowed.contains(b)
                ==> visited.contains(b),
    ensures
        visited.contains(p.last()),
    decreases p.len(),
{
    if p.len() == 1 {
        assert(p.last() == p.first());
    } else {
        let q = p.drop_last();
        assert forall|i: int| 0 <= i < q.len() - 1 implies #[trigger] g_edge(g, q[i], q[i + 1]) by {
            assert(g_edge(g, p[i], p[i + 1]));
        }
        assert(g_path_ok(g, allowed, q));
        lemma_closed_path(g, allowed, visited, q);
        let j = p.len() - 2;
        assert(g_edge(g, p[j], p[j + 1]));
        assert(allowed.contains(p[j + 1]));
    }
}

/// Every node of a set that contains `start`, sits inside `allowed`, and is
/// closed under allowed edges, is reachable from `start`; and conversely.
proof fn lemma_closed_is_reach_set(
    g: Seq<fixedbitset::FixedBitSet>,
    allowed: Set<usize>,
    visited: Set<usize>,
    start: usize,
)
    requires
        visited.contains(start),
        forall|v: usize| #[trigger] visited.contains(v) ==> g_reaches(g, allowed, start, v),
        forall|v: usize, b: usize|
            visited.contains(v) && #[trigger] g_edge(g, v, b) && allowed.contains(b)
                ==> visited.contains(b),
    ensures
        visited == reach_set(g, allowed, start),
{
    assert forall|v: usize| reach_set(g, allowed, start).contains(v) implies visited.contains(
        v,
    ) by {
        let p = choose|p: Seq<usize>|
            g_path_ok(g, allowed, p) && p.first() == start && p.last() == v;
        lemma_closed_path(g, allowed, visited, p);
    }
    assert(visited =~= reach_set(g, allowed, start));
}

/// Walks reverse when the restricted edge relation is symmetric.
pub proof fn lemma_reach_reverse(
    g: Seq<fixedbitset::FixedBitSet>,
    allowed: Set<usize>,
    a: usize,
    b: usize,
)
    requires
        g_sym(g, allowed),
        g_reaches(g, allowed, a, b),
    ensures
        g_reaches(g, allowed, b, a),
{
    let p = choose|p: Seq<usize>| g_path_ok(g, allowed, p) && p.first() == a && p.last() == b;
    let n = p.len() as int;
    let q = Seq::new(p.len(), |i: int| p[n - 1 - i]);
    assert forall|i: int| 0 <= i < q.len() - 1 implies #[trigger] g_edge(g, q[i], q[i + 1]) by {
        let j = n - 2 - i;
        assert(g_edge(g, p[j], p[j + 1]));
        assert(allowed.contains(p[j]) && allowed.contains(p[j + 1]));
    }
    assert(g_path_ok(g, allowed, q));
    assert(q.first() == b && q.last() == a);
}

/// Walks concatenate.
pub proof fn lemma_reach_trans(
    g: Seq<fixedbitset::FixedBitSet>,
    allowed: Set<usize>,
    a: usize,
    b: usize,
    d: usize,
)
    requires
        g_reaches(g, allowed, a, b),
        g_reaches(g, allowed, b, d),
    ensures
        g_reaches(g, allowed, a, d),
{
    let p1 = choose|p: Seq<usize>| g_path_ok(g, allowed, p) && p.first() == a && p.last() == b;
    let p2 = choose|p: Seq<usize>| g_path_ok(g, allowed, p) && p.first() == b && p.last() == d;
    let q = p1 + p2.drop_first();
    let n1 = p1.len() as int;
    assert forall|i: int| 0 <= i < q.len() implies allowed.contains(#[trigger] q[i]) by {
        if i < n1 {
            assert(q[i] == p1[i]);
        } else {
            assert(q[i] == p2[i - n1 + 1]);
        }
    }
    assert forall|i: int| 0 <= i < q.len() - 1 implies #[trigger] g_edge(g, q[i], q[i + 1]) by {
        if i < n1 - 1 {
            assert(q[i] == p1[i] && q[i + 1] == p1[i + 1]);
        } else if i == n1 - 1 {
            assert(q[i] == p1.last() && p1.last() == b && p2.first() == b);
            if p2.len() == 1 {
                assert(q.len() == n1);
            } else {
                assert(q[i + 1] == p2[1]);
                assert(g_edge(g, p2[0], p2[1]));
            }
        } else {
            assert(q[i] == p2[i - n1 + 1] && q[i + 1] == p2[i - n1 + 2]);
            assert(g_edge(g, p2[i - n1 + 1], p2[i - n1 + 2]));
        }
    }
    assert(g_path_ok(g, allowed, q));
    assert(q.first() == a);
    if p2.len() == 1 {
        assert(q.last() == p1.last() && b == d);
    } else {
        assert(q.last() == p2.last());
    }
}

/// Adds to the table one bit per entry of a neighbor list, all out of the
/// same node.
fn add_edges(g: &mut Vec<fixedbitset::FixedBitSet>, id: NodeId, ns: &Vec<NodeId>)
    requires
        g_wf(old(g)@),
    ensures
        g_wf(final(g)@),
        forall|a: usize, b: usize|
            #[trigger] g_edge(final(g)@, a, b) <==> g_edge(old(g)@, a, b) || (a == id as usize && b
                < MAX_NODES && ns@.contains(b as u8)),
{
    let mut k: usize = 0;
    while k < ns.len()
        invariant
            0 <= k <= ns@.len(),
            g_wf(g@),
            forall|a: usize, b: usize|
                #[trigger] g_edge(g@, a, b) <==> g_edge(old(g)@, a, b) || (a == id as usize && b
                    < MAX_NODES && exists|m: int| 0 <= m < k && ns@[m] == b as u8),
        decreases ns@.len() - k,
    {
        let nb = ns[k];
        let ghost pre = g@;
        bitset_insert(&mut g[id as usize], nb as usize);
        assert forall|a: usize, b: usize| #[trigger] g_edge(g@, a, b) implies g_edge(pre, a, b) || (
        a == id as usize && b == nb as usize) by {}
        assert forall|a: usize, b: usize|
            g_edge(pre, a, b) || (a == id as usize && b == nb as usize) implies #[trigger] g_edge(
            g@,
            a,
            b,
        ) by {}
        assert forall|a: usize, b: usize| #[trigger] g_edge(g@, a, b) implies g_edge(old(g)@, a, b)
            || (a == id as usize && b < MAX_NODES && exists|m: int|
            0 <= m < k + 1 && ns@[m] == b as u8) by {
            if !g_edge(pre, a, b) {
                assert(a == id as usize && b == nb as usize);
                assert(ns@[k as int] == b as u8);
            }
        }
        assert forall|a: usize, b: usize|
            g_edge(old(g)@, a, b) || (a == id as usize && b < MAX_NODES && exists|m: int|
                0 <= m < k + 1 && ns@[m] == b as u8) implies #[trigger] g_edge(g@, a, b) by {
            if !g_edge(old(g)@, a, b) {
                let m = choose|m: int| 0 <= m < k + 1 && ns@[m] == b as u8;
                if m < k {
                    assert(g_edge(pre, a, b));
                } else {
                    assert(b == nb as usize);
                }
            }
        }
        k = k + 1;
    }
}

/// Builds the adjacency table of the description: slot `i` holds exactly
/// the neighbor ids declared by the entry (or entries) with id `i`.
pub fn compute_init_graph(c: &Config) -> (g: Vec<fixedbitset::FixedBitSet>)
    ensures
        g_matches(g@, *c),
{
    let mut g: Vec<fixedbitset::FixedBitSet> = Vec::new();
    let mut i: usize = 0;
    while i < MAX_NODES
        invariant
            0 <= i <= MAX_NODES,
            g@.len() == i,
            forall|a: int| 0 <= a < i ==> bit_capacity(#[trigger] g@[a]) == MAX_NODES,
            forall|a: int| 0 <= a < i ==> bits_of(#[trigger] g@[a]) == Set::<usize>::empty(),
        decreases MAX_NODES - i,
    {
        g.push(bitset_with_capacity(MAX_NODES));
        i = i + 1;
    }
    assert(g_wf(g@));
    assert(forall|a: usize, b: usize| !g_edge(g@, a, b));
    let mut di: usize = 0;
    while di < c.drone.len()
        invariant
            0 <= di <= c.drone@.len(),
            g_wf(g@),
            forall|a: usize, b: usize|
                #[trigger] g_edge(g@, a, b) <==> (b < MAX_NODES && exists|i: int|
                    0 <= i < di && c.drone@[i].id as usize == a
                        && c.drone@[i].connected_node_ids@.contains(b as u8)),
        decreases c.drone@.len() - di,
    {
        add_edges(&mut g, c.drone[di].id, &c.drone[di].connected_node_ids);
        di = di + 1;
    }
    let mut ci: usize = 0;
    while ci < c.client.len()
        invariant
            0 <= ci <= c.client@.len(),
            g_wf(g@),
            forall|a: usize, b: usize|
                #[trigger] g_edge(g@, a, b) <==> (b < MAX_NODES && ((exists|i: int|
                    0 <= i < c.drone@.len() && c.drone@[i].id as usize == a
                        && c.drone@[i].connected_node_ids@.contains(b as u8)) || (exists|i: int|
                    0 <= i < ci && c.client@[i].id as usize == a
                        && c.client@[i].connected_drone_ids@.contains(b as u8)))),
        decreases c.client@.len() - ci,
    {
        add_edges(&mut g, c.client[ci].id, &c.client[ci].connected_drone_ids);
        ci = ci + 1;
    }
    let mut si: usize = 0;
    while si < c.server.len()
        invariant
            0 <= si <= c.server@.len(),
            g_wf(g@),
            forall|a: usize, b: usize|
                #[trigger] g_edge(g@, a, b) <==> (b < MAX_NODES && ((exists|i: int|
                    0 <= i < c.drone@.len() && c.drone@[i].id as usize == a
                        && c.drone@[i].connected_node_ids@.contains(b as u8)) || (exists|i: int|
                    0 <= i < c.client@.len() && c.client@[i].id as usize == a
                        && c.client@[i].connected_drone_ids@.contains(b as u8)) || (exists|i: int|
                    0 <= i < si && c.server@[i].id as usize == a
                        && c.server@[i].connected_drone_ids@.contains(b as u8)))),
        decreases c.server@.len() - si,
    {
        add_edges(&mut g, c.server[si].id, &c.server[si].connected_drone_ids);
        si = si + 1;
    }
    assert forall|a: NodeId, b: NodeId|
        #![trigger g_edge(g@, a as usize, b as usize)]
        #![trigger cfg_edge(*c, a, b)]
        g_edge(g@, a as usize, b as usize) <==> cfg_edge(*c, a, b) by {
        assert((b as usize) < MAX_NODES);
    }
    g
}

/// A finite set of indices below a bound holds at most that many elements.
pub proof fn lemma_usize_set_card_bound(s: Set<usize>, bound: usize)
    requires
        s.finite(),
        forall|x: usize| s.contains(x) ==> x < bound,
    ensures
        s.len() <= bound,
    decreases bound,
{
    if bound == 0 {
        assert(s =~= Set::<usize>::empty());
    } else {
        let top = (bound - 1) as usize;
        let s2 = s.remove(top);
        assert(forall|x: usize| s2.contains(x) ==> x < top);
        lemma_usize_set_card_bound(s2, top);
        if !s.contains(top) {
            assert(s2 =~= s);
        }
    }
}

/// Counts the nodes reachable from `start` by walks inside `allowed`: a
/// breadth-first search over the table that never steps out of `allowed`.
pub fn compute_reachable(
    g: &Vec<fixedbitset::FixedBitSet>,
    allowed: &fixedbitset::FixedBitSet,
    start: usize,
) -> (n: usize)
    requires
        g_wf(g@),
        bits_of(*allowed).contains(start),
        bits_of(*allowed).finite(),
        start < MAX_NODES,
    ensures
        reach_set(g@, bits_of(*allowed), start).finite(),
        n == reach_set(g@, bits_of(*allowed), start).len(),
{
    let ghost aset = bits_of(*allowed);
    let mut visited = bitset_with_capacity(MAX_NODES);
    let mut queue: Vec<usize> = Vec::new();
    let mut head: usize = 0;
    let mut n_visited: usize = 0;
    bitset_insert(&mut visited, start);
    queue.push(start);
    proof {
        lemma_reach_refl(g@, aset, start);
        assert(queue@[0] == start);
        assert forall|x: usize| #[trigger] bits_of(visited).contains(x) implies queue@.contains(
            x,
        ) by {
            assert(x == start && queue@[0] == x);
        }
        lemma_usize_set_card_bound(bits_of(visited), MAX_NODES);
    }
    while head < queue.len()
        invariant
            g_wf(g@),
            bits_of(*allowed) == aset,
            bit_capacity(visited) == MAX_NODES,
            head <= queue@.len(),
            n_visited == head,
            bits_of(visited).contains(start),
            forall|t1: int, t2: int| 0 <= t1 < t2 < queue@.len() ==> queue@[t1] != queue@[t2],
            forall|t: int|
                0 <= t < queue@.len() ==> aset.contains(#[trigger] queue@[t]) && queue@[t]
                    < MAX_NODES && g_reaches(g@, aset, start, queue@[t]),
            forall|x: usize| #[trigger] bits_of(visited).contains(x) <==> queue@.contains(x),
            bits_of(visited).finite(),
            bits_of(visited).len() == queue@.len(),
            queue@.len() <= MAX_NODES,
            forall|t: int, b: usize|
                0 <= t < head && #[trigger] g_edge(g@, queue@[t], b) && aset.contains(b)
                    ==> bits_of(visited).contains(b),
        decreases MAX_NODES - head,
    {
        let node = queue[head];
        let nbrs = bitset_ones(&g[node]);
        let mut m: usize = 0;
        while m < nbrs.len()
            invariant
                0 <= m <= nbrs@.len(),
                g_wf(g@),
                bits_of(*allowed) == aset,
                bit_capacity(visited) == MAX_NODES,
                head < queue@.len(),
                node == queue@[head as int],
                forall|k: int| 0 <= k < nbrs@.len() ==> g_edge(g@, node, #[trigger] nbrs@[k]),
                forall|b: usize| g_edge(g@, node, b) ==> nbrs@.contains(b),
                bits_of(visited).contains(start),
                forall|t1: int, t2: int| 0 <= t1 < t2 < queue@.len() ==> queue@[t1] != queue@[t2],
                forall|t: int|
                    0 <= t < queue@.len() ==> aset.contains(#[trigger] queue@[t]) && queue@[t]
                        < MAX_NODES && g_reaches(g@, aset, start, queue@[t]),
                forall|x: usize| #[trigger] bits_of(visited).contains(x) <==> queue@.contains(x),
                bits_of(visited).finite(),
                bits_of(visited).len() == queue@.len(),
                queue@.len() <= MAX_NODES,
                forall|t: int, b: usize|
                    0 <= t < head && #[trigger] g_edge(g@, queue@[t], b) && aset.contains(b)
                        ==> bits_of(visited).contains(b),
                forall|k: int|
                    0 <= k < m && aset.contains(#[trigger] nbrs@[k]) ==> bits_of(
                        visited,
                    ).contains(nbrs@[k]),
            decreases nbrs@.len() - m,
        {
            let nb = nbrs[m];
            if bitset_contains(allowed, nb) && !bitset_contains(&visited, nb) {
                assert(g_edge(g@, node, nb));
                assert(nb < MAX_NODES);
                proof {
                    lemma_reach_step(g@, aset, start, node, nb);
                }
                let ghost vpre = bits_of(visited);
                let ghost qpre = queue@;
                bitset_insert(&mut visited, nb);
                queue.push(nb);
                assert forall|x: usize| #[trigger] bits_of(visited).contains(x) implies queue@
                    .contains(x) by {
                    if x == nb {
                        assert(queue@[queue@.len() - 1] == nb);
                    } else {
                        assert(vpre.contains(x));
                        assert(qpre.contains(x));
                        let t = choose|t: int| 0 <= t < qpre.len() && qpre[t] == x;
                        assert(queue@[t] == x);
                    }
                }
                assert forall|x: usize| queue@.contains(x) implies bits_of(visited).contains(
                    x,
                ) by {
                    let t = choose|t: int| 0 <= t < queue@.len() && queue@[t] == x;
                    if t < qpre.len() {
                        assert(qpre[t] == x);
                        assert(qpre.contains(x));
                    } else {
                        assert(x == nb);
                    }
                }
                assert forall|t1: int, t2: int|
                    0 <= t1 < t2 < queue@.len() implies queue@[t1] != queue@[t2] by {
                    if t2 == queue@.len() - 1 {
                        assert(queue@[t1] == qpre[t1]);
                        assert(qpre.contains(qpre[t1]));
                        assert(vpre.contains(qpre[t1]));
                    }
                }
                proof {
                    lemma_usize_set_card_bound(bits_of(visited), MAX_NODES);
                }
            }
            m = m + 1;
        }
        assert forall|t: int, b: usize|
            0 <= t < head + 1 && #[trigger] g_edge(g@, queue@[t], b) && aset.contains(b)
                implies bits_of(visited).contains(b) by {
            if t == head {
                assert(nbrs@.contains(b));
                let k = choose|k: int| 0 <= k < nbrs@.len() && nbrs@[k] == b;
                assert(aset.contains(nbrs@[k]));
            }
        }
        head = head + 1;
        n_visited = n_visited + 1;
    }
    proof {
        assert forall|v: usize| #[trigger] bits_of(visited).contains(v) implies g_reaches(
            g@,
            aset,
            start,
            v,
        ) by {
            let t = choose|t: int| 0 <= t < queue@.len() && queue@[t] == v;
        }
        assert forall|v: usize, b: usize|
            bits_of(visited).contains(v) && #[trigger] g_edge(g@, v, b) && aset.contains(b)
                implies bits_of(visited).contains(b) by {
            let t = choose|t: int| 0 <= t < queue@.len() && queue@[t] == v;
        }
        lemma_closed_is_reach_set(g@, aset, bits_of(visited), start);
    }
    n_visited
}

/// A finite non-empty subset has a smaller cardinality than any strict
/// superset: two sets of equal finite cardinality, one inside the other,
/// are equal.
pub proof fn lemma_subset_same_len_equal(sub: Set<usize>, sup: Set<usize>)
    requires
        sup.finite(),
        sub.subset_of(sup),
        sub.len() == sup.len(),
    ensures
        sub == sup,
{
    lemma_len_subset(sub, sup);
    if exists|x: usize| sup.contains(x) && !sub.contains(x) {
        let x = choose|x: usize| sup.contains(x) && !sub.contains(x);
        let sup2 = sup.remove(x);
        lemma_len_subset(sub, sup2);
    }
    assert(sub =~= sup);
}

} // verus!

verus! {

/// Every edge out of the set points back into the set with its reverse
/// edge present: the graph-level form of the bidirectionality invariant.
pub open spec fn g_bidir(g: Seq<fixedbitset::FixedBitSet>, s: Set<usize>) -> bool {
    forall|a: usize, b: usize|
        s.contains(a) && #[trigger] g_edge(g, a, b) ==> s.contains(b) && g_edge(g, b, a)
}

/// Every edge out of the set whose pair precedes `(pa, pb)` in ascending
/// scan order points back into the set with its reverse edge present: the
/// offense at `(pa, pb)` is the first one the scan meets.
pub open spec fn g_bidir_upto(
    g: Seq<fixedbitset::FixedBitSet>,
    s: Set<usize>,
    pa: usize,
    pb: usize,
) -> bool {
    forall|a: usize, b: usize|
        (a < pa || (a == pa && b < pb)) && s.contains(a) && #[trigger] g_edge(g, a, b)
            ==> s.contains(b) && g_edge(g, b, a)
}

/// A declared edge's source is itself a declared node.
pub proof fn lemma_cfg_edge_src_declared(c: Config, a: NodeId, b: NodeId)
    requires
        cfg_edge(c, a, b),
    ensures
        declared(c, a),
{
    if exists|i: int|
        0 <= i < c.drone@.len() && c.drone@[i].id == a && c.drone@[i].connected_node_ids@.contains(
            b,
        ) {
        let i = choose|i: int|
            0 <= i < c.drone@.len() && c.drone@[i].id == a
                && c.drone@[i].connected_node_ids@.contains(b);
        assert(c.drone@[i].id == a);
    } else if exists|i: int|
        0 <= i < c.client@.len() && c.client@[i].id == a
            && c.client@[i].connected_drone_ids@.contains(b) {
        let i = choose|i: int|
            0 <= i < c.client@.len() && c.client@[i].id == a
                && c.client@[i].connected_drone_ids@.contains(b);
        assert(c.client@[i].id == a);
    } else {
        let i = choose|i: int|
            0 <= i < c.server@.len() && c.server@[i].id == a
                && c.server@[i].connected_drone_ids@.contains(b);
        assert(c.server@[i].id == a);
    }
}

/// Over a table that matches the description, graph-level
/// bidirectionality over the declared ids is the bidirectionality
/// invariant of the description.
pub proof fn lemma_bidir_bridge(c: Config, g: Seq<fixedbitset::FixedBitSet>, s: Set<usize>)
    requires
        g_matches(g, c),
        forall|x: usize| #[trigger] s.contains(x) <==> (x < MAX_NODES && declared(c, x as u8)),
    ensures
        g_bidir(g, s) <==> crate::config::bidirectional(c),
{
    if g_bidir(g, s) {
        assert forall|a: NodeId, b: NodeId| #[trigger] cfg_edge(c, a, b) implies declared(c, b)
            && cfg_edge(c, b, a) by {
            lemma_cfg_edge_src_declared(c, a, b);
            assert(g_edge(g, a as usize, b as usize));
            assert(s.contains(a as usize));
            assert(s.contains(b as usize) && g_edge(g, b as usize, a as usize));
            assert(declared(c, b));
            assert(cfg_edge(c, b, a));
        }
    }
    if crate::config::bidirectional(c) {
        assert forall|a: usize, b: usize| s.contains(a) && #[trigger] g_edge(g, a, b) implies s
            .contains(b) && g_edge(g, b, a) by {
            assert(a < MAX_NODES);
            assert(b < MAX_NODES);
            let a8 = a as u8;
            let b8 = b as u8;
            assert(g_edge(g, a8 as usize, b8 as usize));
            assert(cfg_edge(c, a8, b8));
            assert(declared(c, b8) && cfg_edge(c, b8, a8));
            assert(s.contains(b));
            assert(g_edge(g, b8 as usize, a8 as usize));
        }
    }
}

/// Over a table that matches the description, graph-level connectivity of
/// the declared ids is the connectivity invariant of the description.
pub proof fn lemma_connected_bridge(c: Config, g: Seq<fixedbitset::FixedBitSet>, s: Set<usize>)
    requires
        g_matches(g, c),
        forall|x: usize| #[trigger] s.contains(x) <==> (x < MAX_NODES && declared(c, x as u8)),
    ensures
        g_connected(g, s) <==> connected(c),
{
    if g_connected(g, s) {
        assert forall|a: NodeId, b: NodeId| declared(c, a) && declared(c, b) implies #[trigger]
        reaches(c, a, b) by {
            assert(s.contains(a as usize) && s.contains(b as usize));
            assert(g_reaches(g, s, a as usize, b as usize));
            let p = choose|p: Seq<usize>|
                g_path_ok(g, s, p) && p.first() == a as usize && p.last() == b as usize;
            let q = p.map_values(|x: usize| x as u8);
            assert forall|i: int| 0 <= i < q.len() - 1 implies #[trigger] cfg_edge(
                c,
                q[i],
                q[i + 1],
            ) by {
                assert(g_edge(g, p[i], p[i + 1]));
                assert(s.contains(p[i]) && s.contains(p[i + 1]));
                assert(q[i] == p[i] as u8 && q[i + 1] == p[i + 1] as u8);
                assert(g_edge(g, q[i] as usize, q[i + 1] as usize));
            }
            assert(is_path(c, q));
            assert(q.first() == a && q.last() == b);
        }
    }
    if connected(c) {
        assert forall|a: usize, b: usize| s.contains(a) && s.contains(b) implies #[trigger]
        g_reaches(g, s, a, b) by {
            let a8 = a as u8;
            let b8 = b as u8;
            assert(declared(c, a8) && declared(c, b8));
            assert(reaches(c, a8, b8));
            let q = choose|q: Seq<NodeId>| is_path(c, q) && q.first() == a8 && q.last() == b8;
            let p = q.map_values(|id: NodeId| id as usize);
            assert forall|i: int| 0 <= i < p.len() implies s.contains(#[trigger] p[i]) by {
                assert(p[i] == q[i] as usize);
                if i < p.len() - 1 {
                    assert(cfg_edge(c, q[i], q[i + 1]));
                    lemma_cfg_edge_src_declared(c, q[i], q[i + 1]);
                } else {
                    assert(q[i] == b8);
                }
            }
            assert forall|i: int| 0 <= i < p.len() - 1 implies #[trigger] g_edge(
                g,
                p[i],
                p[i + 1],
            ) by {
                assert(cfg_edge(c, q[i], q[i + 1]));
                assert(g_edge(g, q[i] as usize, q[i + 1] as usize));
                assert(p[i] == q[i] as usize && p[i + 1] == q[i + 1] as usize);
            }
            assert(g_path_ok(g, s, p));
            assert(p.first() == a && p.last() == b);
        }
    }
}

/// Over a table that matches the description, graph-level connectivity of
/// the drone ids alone is the drone-subgraph invariant of the description.
pub proof fn lemma_drones_connected_bridge(
    c: Config,
    g: Seq<fixedbitset::FixedBitSet>,
    s: Set<usize>,
)
    requires
        g_matches(g, c),
        forall|x: usize| #[trigger] s.contains(x) <==> (x < MAX_NODES && has_drone(c, x as u8)),
    ensures
        g_connected(g, s) <==> drones_connected(c),
{
    if g_connected(g, s) {
        assert forall|a: NodeId, b: NodeId| has_drone(c, a) && has_drone(c, b) implies #[trigger]
        drone_reaches(c, a, b) by {
            assert(s.contains(a as usize) && s.contains(b as usize));
            assert(g_reaches(g, s, a as usize, b as usize));
            let p = choose|p: Seq<usize>|
                g_path_ok(g, s, p) && p.first() == a as usize && p.last() == b as usize;
            let q = p.map_values(|x: usize| x as u8);
            assert forall|i: int| 0 <= i < q.len() implies has_drone(c, #[trigger] q[i]) by {
                assert(s.contains(p[i]));
                assert(q[i] == p[i] as u8);
            }
            assert forall|i: int| 0 <= i < q.len() - 1 implies #[trigger] cfg_edge(
                c,
                q[i],
                q[i + 1],
            ) by {
                assert(g_edge(g, p[i], p[i + 1]));
                assert(s.contains(p[i]) && s.contains(p[i + 1]));
                assert(q[i] == p[i] as u8 && q[i + 1] == p[i + 1] as u8);
                assert(g_edge(g, q[i] as usize, q[i + 1] as usize));
            }
            assert(is_drone_path(c, q));
            assert(q.first() == a && q.last() == b);
        }
    }
    if drones_connected(c) {
        assert forall|a: usize, b: usize| s.contains(a) && s.contains(b) implies #[trigger]
        g_reaches(g, s, a, b) by {
            let a8 = a as u8;
            let b8 = b as u8;
            assert(has_drone(c, a8) && has_drone(c, b8));
            assert(drone_reaches(c, a8, b8));
            let q = choose|q: Seq<NodeId>| is_drone_path(c, q) && q.first() == a8 && q.last() == b8;
            let p = q.map_values(|id: NodeId| id as usize);
            assert forall|i: int| 0 <= i < p.len() implies s.contains(#[trigger] p[i]) by {
                assert(has_drone(c, q[i]));
                assert(p[i] == q[i] as usize);
            }
            assert forall|i: int| 0 <= i < p.len() - 1 implies #[trigger] g_edge(
                g,
                p[i],
                p[i + 1],
            ) by {
                assert(cfg_edge(c, q[i], q[i + 1]));
                assert(g_edge(g, q[i] as usize, q[i + 1] as usize));
                assert(p[i] == q[i] as usize && p[i + 1] == q[i + 1] as usize);
            }
            assert(g_path_ok(g, s, p));
            assert(p.first() == a && p.last() == b);
        }
    }
}

} // verus!
