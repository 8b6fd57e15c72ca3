//! The wire-graph builder: collapses the multigraph of pin-level connections
//! into electrical nets, the equivalence classes of the connection graph.

use vstd::prelude::*;

verus! {

/// Edge `e` joins pins `u` and `v`, in either orientation.
pub open spec fn edge_links(e: (usize, usize), u: int, v: int) -> bool {
    (e.0 == u && e.1 == v) || (e.0 == v && e.1 == u)
}

/// Some recorded connection joins `u` and `v` directly.
pub open spec fn adjacent(edges: Seq<(usize, usize)>, u: int, v: int) -> bool {
    exists|k: int| 0 <= k < edges.len() && edge_links(#[trigger] edges[k], u, v)
}

/// `path` is a walk through pins `0..n` whose consecutive pins are joined
/// by recorded connections.
pub open spec fn path_in(edges: Seq<(usize, usize)>, n: int, path: Seq<int>) -> bool {
    &&& path.len() >= 1
    &&& forall|i: int| 0 <= i < path.len() ==> 0 <= #[trigger] path[i] < n
    &&& forall|i: int| 0 <= i < path.len() - 1 ==> adjacent(edges, #[trigger] path[i], path[i + 1])
}

/// Pins `p` and `q` lie in the same connected component of the connection
/// graph over pins `0..n`.
pub open spec fn connected(edges: Seq<(usize, usize)>, n: int, p: int, q: int) -> bool {
    exists|path: Seq<int>|
        #[trigger] path_in(edges, n, path) && path.first() == p && path.last() == q
}

/// Every edge of `edges` already joins two pins with the same label.
pub open spec fn edges_merged(edges: Seq<(usize, usize)>, l: Seq<usize>, k: int) -> bool {
    forall|k2: int| 0 <= k2 < k ==> l[(#[trigger] edges[k2]).0 as int] == l[edges[k2].1 as int]
}

/// Pins sharing a label are connected through the first `k` edges.
pub open spec fn labels_sound(edges: Seq<(usize, usize)>, n: int, l: Seq<usize>, k: int) -> bool {
    forall|p: int, q: int|
        0 <= p < n && 0 <= q < n && #[trigger] l[p] == #[trigger] l[q] ==> connected(
            edges.take(k),
            n,
            p,
            q,
        )
}

pub open spec fn labels_in_range(n: int, l: Seq<usize>) -> bool {
    forall|p: int| 0 <= p < n ==> (#[trigger] l[p] as int) < n
}

/// Net index `w` is the net of at least one of the pins `0..n`.
pub open spec fn net_inhabited(l: Seq<usize>, n: int, w: int) -> bool {
    exists|p: int| 0 <= p < n && #[trigger] l[p] == w
}

/// Every pin is connected to itself: the one-pin walk.
pub proof fn lemma_connected_refl(edges: Seq<(usize, usize)>, n: int, p: int)
    requires
        0 <= p < n,
    ensures
        connected(edges, n, p, p),
{
    let path: Seq<int> = seq![p];
    assert(path_in(edges, n, path));
}

/// Connectivity is symmetric: walks reverse.
pub proof fn lemma_connected_sym(edges: Seq<(usize, usize)>, n: int, p: int, q: int)
    requires
        connected(edges, n, p, q),
    ensures
        connected(edges, n, q, p),
{
    let path = choose|path: Seq<int>|
        #[trigger] path_in(edges, n, path) && path.first() == p && path.last() == q;
    let len = path.len() as int;
    let rev = Seq::new(path.len(), |i: int| path[len - 1 - i]);
    assert forall|i: int| 0 <= i < rev.len() - 1 implies adjacent(
        edges,
        #[trigger] rev[i],
        rev[i + 1],
    ) by {
        let j = len - 2 - i;
        assert(adjacent(edges, path[j], path[j + 1]));
        let k = choose|k: int| 0 <= k < edges.len() && edge_links(#[trigger] edges[k], path[j], path[j + 1]);
        assert(edge_links(edges[k], rev[i], rev[i + 1]));
    }
    assert(path_in(edges, n, rev));
    assert(rev.first() == q && rev.last() == p);
}

/// Connectivity is transitive: walks concatenate.
pub proof fn lemma_connected_trans(edges: Seq<(usize, usize)>, n: int, p: int, q: int, r: int)
    requires
        connected(edges, n, p, q),
        connected(edges, n, q, r),
    ensures
        connected(edges, n, p, r),
{
    let p1 = choose|path: Seq<int>|
        #[trigger] path_in(edges, n, path) && path.first() == p && path.last() == q;
    let p2 = choose|path: Seq<int>|
        #[trigger] path_in(edges, n, path) && path.first() == q && path.last() == r;
    let l1 = p1.len() as int;
    let l2 = p2.len() as int;
    let c = p1 + p2.subrange(1, l2);
    assert(c.len() == l1 + l2 - 1);
    assert forall|i: int| 0 <= i < c.len() implies 0 <= #[trigger] c[i] < n by {
        if i < l1 {
            assert(c[i] == p1[i]);
        } else {
            assert(c[i] == p2[i - l1 + 1]);
        }
    }
    assert forall|i: int| 0 <= i < c.len() - 1 implies adjacent(edges, #[trigger] c[i], c[i + 1]) by {
        if i < l1 - 1 {
            assert(c[i] == p1[i] && c[i + 1] == p1[i + 1]);
        } else if i == l1 - 1 {
            assert(c[i] == p1[l1 - 1]);
            assert(c[i + 1] == p2[1]);
            assert(p1[l1 - 1] == q && p2[0] == q);
            assert(adjacent(edges, p2[0], p2[1]));
        } else {
            assert(c[i] == p2[i - l1 + 1] && c[i + 1] == p2[i - l1 + 2]);
            assert(adjacent(edges, p2[i - l1 + 1], p2[i - l1 + 2]));
        }
    }
    assert(path_in(edges, n, c));
    assert(c.first() == p && c.last() == r);
}

/// A single recorded connection is a two-pin walk.
pub proof fn lemma_connected_step(edges: Seq<(usize, usize)>, n: int, u: int, v: int)
    requires
        0 <= u < n,
        0 <= v < n,
        adjacent(edges, u, v),
    ensures
        connected(edges, n, u, v),
{
    let path: Seq<int> = seq![u, v];
    assert(path[0] == u && path[1] == v);
    assert(path_in(edges, n, path));
}

/// Connectivity over a prefix of the edge list survives widening the prefix.
pub proof fn lemma_connected_widen(
    edges: Seq<(usize, usize)>,
    n: int,
    p: int,
    q: int,
    k1: int,
    k2: int,
)
    requires
        0 <= k1 <= k2 <= edges.len(),
        connected(edges.take(k1), n, p, q),
    ensures
        connected(edges.take(k2), n, p, q),
{
    let e1 = edges.take(k1);
    let e2 = edges.take(k2);
    let path = choose|path: Seq<int>|
        #[trigger] path_in(e1, n, path) && path.first() == p && path.last() == q;
    assert forall|i: int| 0 <= i < path.len() - 1 implies adjacent(
        e2,
        #[trigger] path[i],
        path[i + 1],
    ) by {
        assert(adjacent(e1, path[i], path[i + 1]));
        let k = choose|k: int| 0 <= k < e1.len() && edge_links(#[trigger] e1[k], path[i], path[i + 1]);
        assert(e2[k] == edges[k] && e1[k] == edges[k]);
        assert(edge_links(e2[k], path[i], path[i + 1]));
    }
    assert(path_in(e2, n, path));
}

/// Along any walk whose edges are all merged, the pin label never changes.
pub proof fn lemma_walk_keeps_label(
    edges: Seq<(usize, usize)>,
    n: int,
    l: Seq<usize>,
    path: Seq<int>,
)
    requires
        l.len() == n,
        edges_merged(edges, l, edges.len() as int),
        path_in(edges, n, path),
    ensures
        l[path.first()] == l[path.last()],
    decreases path.len(),
{
    if path.len() > 1 {
        assert(adjacent(edges, path[0], path[1]));
        let k = choose|k: int| 0 <= k < edges.len() && edge_links(#[trigger] edges[k], path[0], path[1]);
        assert(l[edges[k].0 as int] == l[edges[k].1 as int]);
        assert(l[path[0]] == l[path[1]]);
        let rest = path.subrange(1, path.len() as int);
        assert forall|i: int| 0 <= i < rest.len() - 1 implies adjacent(
            edges,
            #[trigger] rest[i],
            rest[i + 1],
        ) by {
            assert(rest[i] == path[i + 1] && rest[i + 1] == path[i + 2]);
            assert(adjacent(edges, path[i + 1], path[i + 2]));
        }
        assert(path_in(edges, n, rest));
        lemma_walk_keeps_label(edges, n, l, rest);
        assert(rest.first() == path[1] && rest.last() == path.last());
    }
}

/// Merging one more edge keeps the labelling both merged and sound.
#[verifier::rlimit(60)]
proof fn lemma_merge_step(
    edges: Seq<(usize, usize)>,
    n: int,
    k: int,
    old_l: Seq<usize>,
    new_l: Seq<usize>,
    a: int,
    b: int,
)
    requires
        0 <= k < edges.len(),
        forall|k2: int| 0 <= k2 <= k ==> (#[trigger] edges[k2]).0 < n && edges[k2].1 < n,
        a == edges[k].0 as int,
        b == edges[k].1 as int,
        0 <= a < n,
        0 <= b < n,
        old_l.len() == n,
        new_l.len() == n,
        labels_in_range(n, old_l),
        forall|p: int| 0 <= p < n ==> #[trigger] new_l[p] == (if old_l[p] == old_l[b] {
            old_l[a]
        } else {
            old_l[p]
        }),
        edges_merged(edges, old_l, k),
        labels_sound(edges, n, old_l, k),
    ensures
        labels_in_range(n, new_l),
        edges_merged(edges, new_l, k + 1),
        labels_sound(edges, n, new_l, k + 1),
{
    let x = old_l[a];
    let y = old_l[b];
    assert(edges_merged(edges, new_l, k + 1)) by {
        assert forall|k2: int| 0 <= k2 < k + 1 implies new_l[(#[trigger] edges[k2]).0 as int]
            == new_l[edges[k2].1 as int] by {
            if k2 < k {
                assert(edges[k2].0 < n && edges[k2].1 < n);
                assert(old_l[edges[k2].0 as int] == old_l[edges[k2].1 as int]);
            } else {
                assert(new_l[a] == x && new_l[b] == x);
            }
        }
    }
    assert(adjacent(edges.take(k + 1), a, b)) by {
        assert(edges.take(k + 1)[k] == edges[k]);
        assert(edge_links(edges.take(k + 1)[k], a, b));
    }
    assert forall|p: int, q: int|
        0 <= p < n && 0 <= q < n && #[trigger] new_l[p] == #[trigger] new_l[q] implies connected(
        edges.take(k + 1),
        n,
        p,
        q,
    ) by {
        lemma_merge_pair(edges, n, k, old_l, new_l, a, b, p, q);
    }
}

/// One pair of pins sharing a label after a merge is connected through the
/// widened edge prefix.
proof fn lemma_merge_pair(
    edges: Seq<(usize, usize)>,
    n: int,
    k: int,
    old_l: Seq<usize>,
    new_l: Seq<usize>,
    a: int,
    b: int,
    p: int,
    q: int,
)
    requires
        0 <= k < edges.len(),
        a == edges[k].0 as int,
        b == edges[k].1 as int,
        0 <= a < n,
        0 <= b < n,
        0 <= p < n,
        0 <= q < n,
        old_l.len() == n,
        new_l.len() == n,
        forall|p2: int| 0 <= p2 < n ==> #[trigger] new_l[p2] == (if old_l[p2] == old_l[b] {
            old_l[a]
        } else {
            old_l[p2]
        }),
        labels_sound(edges, n, old_l, k),
        new_l[p] == new_l[q],
        adjacent(edges.take(k + 1), a, b),
    ensures
        connected(edges.take(k + 1), n, p, q),
{
    let x = old_l[a];
    let y = old_l[b];
    if old_l[p] == old_l[q] {
        assert(connected(edges.take(k), n, p, q));
        lemma_connected_widen(edges, n, p, q, k, k + 1);
    } else {
        // Two distinct old labels collapsed: one pin carried label `y`
        // (now relabelled to `x`) and the other already carried `x`.
        let (u, v) = if old_l[p] == y {
            (p, q)
        } else {
            (q, p)
        };
        assert(old_l[u] == y && old_l[v] == x);
        assert(connected(edges.take(k), n, u, b));
        assert(connected(edges.take(k), n, v, a));
        lemma_connected_widen(edges, n, u, b, k, k + 1);
        lemma_connected_widen(edges, n, v, a, k, k + 1);
        lemma_connected_step(edges.take(k + 1), n, a, b);
        lemma_connected_sym(edges.take(k + 1), n, a, b);
        lemma_connected_trans(edges.take(k + 1), n, u, b, a);
        lemma_connected_sym(edges.take(k + 1), n, v, a);
        lemma_connected_trans(edges.take(k + 1), n, u, a, v);
        lemma_connected_sym(edges.take(k + 1), n, u, v);
        if old_l[p] == y {
            assert(connected(edges.take(k + 1), n, p, q));
        } else {
            assert(connected(edges.take(k + 1), n, p, q));
        }
    }
}

/// Computes the electrical nets of a board: an array mapping every pin to
/// its net index, together with the number of distinct nets. Two pins map
/// to the same net exactly when they are connected, nets are numbered
/// `0..count` in order of first appearance, and every net is inhabited.
#[verifier::rlimit(60)]
pub fn net_partition(n: usize, edges: &Vec<(usize, usize)>) -> (r: (Vec<usize>, usize))
    requires
        forall|k: int|
            0 <= k < edges@.len() ==> (#[trigger] edges@[k]).0 < n && edges@[k].1 < n,
    ensures
        r.0@.len() == n,
        r.1 <= n,
        forall|p: int| 0 <= p < n ==> (#[trigger] r.0@[p] as int) < r.1,
        forall|p: int, q: int|
            0 <= p < n && 0 <= q < n ==> (#[trigger] r.0@[p] == #[trigger] r.0@[q] <==> connected(
                edges@,
                n as int,
                p,
                q,
            )),
        forall|w: int| 0 <= w < r.1 ==> #[trigger] net_inhabited(r.0@, n as int, w),
{
    // Phase one: start with every pin in a net of its own.
    let mut labels: Vec<usize> = Vec::new();
    let mut i: usize = 0;
    while i < n
        invariant
            i <= n,
            labels@.len() == i,
            forall|p: int| 0 <= p < i ==> #[trigger] labels@[p] == p,
        decreases n - i,
    {
        labels.push(i);
        i = i + 1;
    }
    proof {
        assert forall|p: int, q: int|
            0 <= p < (n as int) && 0 <= q < (n as int) && #[trigger] labels@[p] == #[trigger] labels@[q]
            implies connected(edges@.take(0), n as int, p, q) by {
            assert(p == q);
            lemma_connected_refl(edges@.take(0), n as int, p);
        }
    }
    // Phase two: merge the two nets joined by each connection in turn.
    let m = edges.len();
    let mut k: usize = 0;
    while k < m
        invariant
            k <= m,
            m == edges@.len(),
            labels@.len() == n,
            forall|k2: int|
                0 <= k2 < m ==> (#[trigger] edges@[k2]).0 < n && edges@[k2].1 < n,
            labels_in_range(n as int, labels@),
            edges_merged(edges@, labels@, k as int),
            labels_sound(edges@, n as int, labels@, k as int),
        decreases m - k,
    {
        let (ea, eb) = edges[k];
        let x = labels[ea];
        let y = labels[eb];
        let ghost snap = labels@;
        if x != y {
            let mut j: usize = 0;
            while j < n
                invariant
                    j <= n,
                    labels@.len() == n,
                    snap.len() == n,
                    ea < n,
                    eb < n,
                    x == snap[ea as int],
                    y == snap[eb as int],
                    forall|p: int|
                        0 <= p < j ==> #[trigger] labels@[p] == (if snap[p] == y {
                            x
                        } else {
                            snap[p]
                        }),
                    forall|p: int| j <= p < n ==> #[trigger] labels@[p] == snap[p],
                decreases n - j,
            {
                if labels[j] == y {
                    labels.set(j, x);
                }
                j = j + 1;
            }
        } else {
            proof {
                assert forall|p: int|
                    0 <= p < (n as int) implies #[trigger] labels@[p] == (if snap[p] == y {
                    x
                } else {
                    snap[p]
                }) by {
                    assert(labels@[p] == snap[p]);
                }
            }
        }
        proof {
            lemma_merge_step(
                edges@,
                n as int,
                k as int,
                snap,
                labels@,
                edges@[k as int].0 as int,
                edges@[k as int].1 as int,
            );
        }
        k = k + 1;
    }
    proof {
        assert(edges@.take(m as int) =~= edges@);
    }
    // Phase three: renumber the surviving labels densely, in order of first
    // appearance, so nets are `0..count`.
    let mut assigned: Vec<usize> = Vec::new();
    let mut i2: usize = 0;
    while i2 < n
        invariant
            i2 <= n,
            assigned@.len() == i2,
            forall|p: int| 0 <= p < i2 ==> #[trigger] assigned@[p] == n,
        decreases n - i2,
    {
        assigned.push(n);
        i2 = i2 + 1;
    }
    let mut result: Vec<usize> = Vec::new();
    let mut count: usize = 0;
    let mut p: usize = 0;
    while p < n
        invariant
            p <= n,
            count <= p,
            labels@.len() == n,
            assigned@.len() == n,
            result@.len() == p,
            labels_in_range(n as int, labels@),
            forall|l1: int|
                0 <= l1 < n && #[trigger] assigned@[l1] != n ==> (assigned@[l1] as int) < count,
            forall|l1: int, l2: int|
                0 <= l1 < n && 0 <= l2 < n && l1 != l2 && #[trigger] assigned@[l1] != n
                    && #[trigger] assigned@[l2] != n ==> assigned@[l1] != assigned@[l2],
            forall|w: int| 0 <= w < count ==> #[trigger] net_inhabited(result@, p as int, w),
            forall|j: int|
                0 <= j < p ==> (#[trigger] result@[j]) == assigned@[labels@[j] as int],
            forall|j: int|
                0 <= j < p ==> #[trigger] assigned@[labels@[j] as int] != n,
        decreases n - p,
    {
        let lab = labels[p];
        let ghost old_count = count as int;
        let ghost old_result = result@;
        let ghost old_assigned = assigned@;
        if assigned[lab] == n {
            assigned.set(lab, count);
            count = count + 1;
        }
        result.push(assigned[lab]);
        proof {
            assert forall|w: int| 0 <= w < count implies #[trigger] net_inhabited(
                result@,
                p as int + 1,
                w,
            ) by {
                if w < old_count {
                    assert(net_inhabited(old_result, p as int, w));
                    let j = choose|j: int| 0 <= j < p && #[trigger] old_result[j] == w;
                    assert(result@[j] == w);
                } else {
                    assert(result@[p as int] == w);
                }
            }
            assert forall|j: int| 0 <= j < p + 1 implies ((#[trigger] result@[j])
                == assigned@[labels@[j] as int] && assigned@[labels@[j] as int] != n) by {
                if j < p {
                    assert(old_result[j] == old_assigned[labels@[j] as int]);
                    assert(old_assigned[labels@[j] as int] != n);
                    assert(assigned@[labels@[j] as int] == old_assigned[labels@[j] as int]);
                    assert(result@[j] == old_result[j]);
                } else {
                    assert(result@[j] == assigned@[labels@[j] as int]);
                    assert(assigned@[labels@[j] as int] != n);
                }
            }
        }
        p = p + 1;
    }
    proof {
        assert forall|p1: int, q1: int| 0 <= p1 < (n as int) && 0 <= q1 < (n as int) implies (
        #[trigger] result@[p1] == #[trigger] result@[q1] <==> connected(edges@, n as int, p1, q1)) by {
            if result@[p1] == result@[q1] {
                assert(labels@[p1] == labels@[q1]);
                assert(connected(edges@.take(m as int), n as int, p1, q1));
            }
            if connected(edges@, n as int, p1, q1) {
                let path = choose|path: Seq<int>|
                    #[trigger] path_in(edges@, n as int, path) && path.first() == p1 && path.last() == q1;
                lemma_walk_keeps_label(edges@, n as int, labels@, path);
                assert(labels@[p1] == labels@[q1]);
            }
        }
    }
    (result, count)
}

} // verus!
