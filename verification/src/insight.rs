//! Proactive insights: density clustering of similar nodes, the text of an
//! unlinked-cluster insight, and the signatures by which insights are
//! deduplicated.

use vstd::prelude::*;
use vstd::relations::{sorted_by, total_ordering};
use vstd::seq_lib::{lemma_sorted_unique, to_multiset_build, to_multiset_insert};
use crate::obsidian::strings_view;
use crate::text::{chars_eq, chars_of, concat_str, decimal_string, decimal_text, lemma_seq_lt_total, lemma_seq_lt_trans, seq_lt, seq_lt_vec};
use crate::work_orders::{join_strings, join_with};

verus! {

/// Whether point `i` is a core point: it has at least `min_points`
/// neighbours (its neighbour list includes every point within the
/// similarity threshold, itself among them when it qualifies).
pub open spec fn is_core(nb: Seq<Vec<usize>>, min_points: usize, i: int) -> bool {
    nb[i]@.len() >= min_points
}

/// Whether point `q` ends up in a cluster: it is a core point, or a
/// neighbour of one.
pub open spec fn reachable(nb: Seq<Vec<usize>>, min_points: usize, q: int) -> bool {
    ||| is_core(nb, min_points, q)
    ||| exists|c: int| 0 <= c < nb.len() && is_core(nb, min_points, c) && #[trigger] nb[c]@.contains(q as usize)
}

/// Whether point `q` is a member of one of the clusters `cl`.
pub open spec fn clustered(cl: Seq<Vec<usize>>, q: int) -> bool {
    exists|k: int| 0 <= k < cl.len() && #[trigger] cl[k]@.contains(q as usize)
}

/// Whether every neighbour list names points of the set.
pub open spec fn neighbour_lists_closed(nb: Seq<Vec<usize>>) -> bool {
    forall|i: int, k: int| 0 <= i < nb.len() && 0 <= k < nb[i]@.len() ==> #[trigger] nb[i]@[k] < nb.len()
}

/// A chain of core points, each a neighbour of the one before it.
pub open spec fn core_chain(nb: Seq<Vec<usize>>, min_points: usize, path: Seq<int>) -> bool {
    &&& path.len() > 0
    &&& forall|j: int| 0 <= j < path.len() ==> 0 <= #[trigger] path[j] < nb.len() && is_core(nb, min_points, path[j])
    &&& forall|a: int, b: int| 0 <= a && b == a + 1 && b < path.len() ==> nb[#[trigger] path[a]]@.contains(#[trigger] path[b] as usize)
}

/// Whether point `q` is reached from core point `c`: through a chain of core
/// points that starts at `c`, `q` is the chain's last point or a neighbour
/// of it.
pub open spec fn reached_from(nb: Seq<Vec<usize>>, min_points: usize, c: int, q: int) -> bool {
    exists|path: Seq<int>| #[trigger] core_chain(nb, min_points, path) && path[0] == c
        && (path.last() == q || nb[path.last()]@.contains(q as usize))
}

/// Whether points `x` and `y` are density-connected: both are reached from
/// one core point.
pub open spec fn density_connected(nb: Seq<Vec<usize>>, min_points: usize, x: int, y: int) -> bool {
    exists|c: int| 0 <= c < nb.len() && #[trigger] reached_from(nb, min_points, c, x) && reached_from(nb, min_points, c, y)
}

/// Whether the neighbour relation is symmetric, as a similarity threshold
/// makes it.
pub open spec fn neighbour_lists_symmetric(nb: Seq<Vec<usize>>) -> bool {
    forall|i: int, j: int| 0 <= i < nb.len() && 0 <= j < nb.len() && #[trigger] nb[i]@.contains(j as usize) ==> nb[j]@.contains(i as usize)
}

#[derive(Clone, Copy, PartialEq, Eq, Structural, Debug)]
enum Label {
    Unvisited,
    Noise,
    Cluster(usize),
}

spec fn unvisited_count(l: Seq<Label>) -> nat
    decreases l.len(),
{
    if l.len() == 0 {
        0
    } else {
        unvisited_count(l.drop_last()) + if l.last() == Label::Unvisited { 1nat } else { 0nat }
    }
}

/// Neighbouring core points carry the same label.
spec fn cores_agree(nb: Seq<Vec<usize>>, min_points: usize, labels: Seq<Label>) -> bool {
    forall|c: int, d: int|
        0 <= c < nb.len() && 0 <= d < nb.len() && is_core(nb, min_points, c) && is_core(nb, min_points, d)
            && #[trigger] nb[c]@.contains(d as usize) && labels[c] is Cluster && labels[d] is Cluster ==> labels[c] == labels[d]
}

/// A point is in no later cluster than any cluster of a core point that
/// neighbours it.
spec fn border_first(nb: Seq<Vec<usize>>, min_points: usize, labels: Seq<Label>) -> bool {
    forall|c: int, q: int|
        0 <= c < nb.len() && 0 <= q < nb.len() && is_core(nb, min_points, c) && #[trigger] nb[c]@.contains(q as usize)
            && labels[c] is Cluster && labels[q] is Cluster ==> labels[q]->Cluster_0 <= labels[c]->Cluster_0
}

/// A core point of a cluster is no smaller than the point that started it.
spec fn seeds_first(nb: Seq<Vec<usize>>, min_points: usize, labels: Seq<Label>, firsts: Seq<usize>) -> bool {
    forall|p: int| 0 <= p < labels.len() && is_core(nb, min_points, p) && (#[trigger] labels[p] is Cluster)
        ==> firsts[labels[p]->Cluster_0 - 1] <= p
}

/// Every neighbour of a core point of a finished cluster (numbered below
/// `cid`) is in a cluster.
spec fn finished_clusters_closed(nb: Seq<Vec<usize>>, min_points: usize, labels: Seq<Label>, cid: usize) -> bool {
    forall|c: int, m: int|
        0 <= c < nb.len() && is_core(nb, min_points, c) && (labels[c] matches Label::Cluster(k) && k < cid) && 0 <= m < nb[c]@.len()
            ==> (#[trigger] labels[nb[c]@[m] as int]) is Cluster
}

proof fn lemma_unvisited_update(l: Seq<Label>, k: int, v: Label)
    requires
        0 <= k < l.len(),
        v != Label::Unvisited,
    ensures
        l[k] == Label::Unvisited ==> unvisited_count(l.update(k, v)) + 1 == unvisited_count(l),
        l[k] != Label::Unvisited ==> unvisited_count(l.update(k, v)) == unvisited_count(l),
    decreases l.len(),
{
    if k == l.len() - 1 {
        assert(l.update(k, v).drop_last() =~= l.drop_last());
    } else {
        lemma_unvisited_update(l.drop_last(), k, v);
        assert(l.update(k, v).drop_last() =~= l.drop_last().update(k, v));
    }
}

fn copy_indices(v: &Vec<usize>) -> (out: Vec<usize>)
    ensures
        out@ == v@,
{
    let mut out: Vec<usize> = Vec::new();
    let mut i: usize = 0;
    while i < v.len()
        invariant
            i <= v@.len(),
            out@ == v@.take(i as int),
        decreases v.len() - i,
    {
        proof { assert(v@.take(i + 1) =~= v@.take(i as int).push(v@[i as int])); }
        out.push(v[i]);
        i += 1;
    }
    proof { assert(v@.take(v@.len() as int) =~= v@); }
    out
}

fn contains_index(v: &Vec<usize>, x: usize) -> (b: bool)
    ensures
        b == v@.contains(x),
{
    let mut i: usize = 0;
    while i < v.len()
        invariant
            i <= v@.len(),
            forall|m: int| 0 <= m < i ==> v@[m] != x,
        decreases v.len() - i,
    {
        if v[i] == x {
            return true;
        }
        i += 1;
    }
    false
}

/// Whether `cluster` has a core point below `d`.
pub open spec fn has_core_below(nb: Seq<Vec<usize>>, min_points: usize, cluster: Seq<usize>, d: usize) -> bool {
    exists|c: usize| #[trigger] cluster.contains(c) && is_core(nb, min_points, c as int) && c < d
}

/// From the labels to the clusters: a point's cluster comes no later than
/// that of any core point neighbouring it, and an earlier cluster has a
/// core point below every core point of a later one.
proof fn lemma_cluster_order(nb: Seq<Vec<usize>>, min_points: usize, labels: Seq<Label>, firsts: Seq<usize>, clusters: Seq<Vec<usize>>)
    requires
        labels.len() == nb.len(),
        firsts.len() == clusters.len(),
        clusters.len() <= usize::MAX,
        forall|k2: int| 0 <= k2 < clusters.len() ==> #[trigger] firsts[k2] < nb.len() && labels[firsts[k2] as int] == Label::Cluster((k2 + 1) as usize),
        forall|k2: int, m: int| 0 <= k2 < clusters.len() && 0 <= m < clusters[k2]@.len() ==> #[trigger] clusters[k2]@[m] < nb.len() && labels[clusters[k2]@[m] as int] == Label::Cluster((k2 + 1) as usize),
        forall|k2: int, p: int| 0 <= k2 < clusters.len() && 0 <= p < nb.len() && labels[p] == Label::Cluster((k2 + 1) as usize) ==> #[trigger] clusters[k2]@.contains(p as usize),
        border_first(nb, min_points, labels),
        seeds_first(nb, min_points, labels, firsts),
        forall|a: int, b: int| 0 <= a < b < clusters.len() ==> #[trigger] firsts[a] < #[trigger] firsts[b],
        forall|k: int| 0 <= k < clusters.len() ==> is_core(nb, min_points, #[trigger] firsts[k] as int),
    ensures
        forall|k1: int, k2: int, q: usize, c: usize| 0 <= k1 < clusters.len() && 0 <= k2 < clusters.len()
            && #[trigger] clusters[k1]@.contains(q) && #[trigger] clusters[k2]@.contains(c)
            && is_core(nb, min_points, c as int) && nb[c as int]@.contains(q) ==> k1 <= k2,
        forall|k1: int, k2: int, d: usize| #![trigger clusters[k1], clusters[k2]@.contains(d)]
            0 <= k1 < k2 < clusters.len() && clusters[k2]@.contains(d) && is_core(nb, min_points, d as int)
            ==> has_core_below(nb, min_points, clusters[k1]@, d),
{
    assert forall|k1: int, k2: int, q: usize, c: usize| 0 <= k1 < clusters.len() && 0 <= k2 < clusters.len()
        && #[trigger] clusters[k1]@.contains(q) && #[trigger] clusters[k2]@.contains(c)
        && is_core(nb, min_points, c as int) && nb[c as int]@.contains(q) implies k1 <= k2 by {
        let m1 = choose|m: int| 0 <= m < clusters[k1]@.len() && clusters[k1]@[m] == q;
        let m2 = choose|m: int| 0 <= m < clusters[k2]@.len() && clusters[k2]@[m] == c;
        assert(labels[clusters[k1]@[m1] as int] == Label::Cluster((k1 + 1) as usize));
        assert(labels[clusters[k2]@[m2] as int] == Label::Cluster((k2 + 1) as usize));
        assert(nb[c as int]@.contains((q as int) as usize));
    }
    assert forall|k1: int, k2: int, d: usize| #![trigger clusters[k1], clusters[k2]@.contains(d)]
        0 <= k1 < k2 < clusters.len() && clusters[k2]@.contains(d) && is_core(nb, min_points, d as int)
        implies has_core_below(nb, min_points, clusters[k1]@, d) by {
        let m2 = choose|m: int| 0 <= m < clusters[k2]@.len() && clusters[k2]@[m] == d;
        assert(labels[clusters[k2]@[m2] as int] == Label::Cluster((k2 + 1) as usize));
        let f = firsts[k1];
        assert(firsts[k1] < firsts[k2]);
        assert(labels[f as int] == Label::Cluster((k1 + 1) as usize));
        assert(clusters[k1]@.contains((f as int) as usize));
        assert(is_core(nb, min_points, f as int));
    }
}

/// Density clustering over precomputed neighbour lists (`neighbors[i]` is
/// every point within the similarity threshold of point `i`). A core point
/// starts a cluster, which grows through the neighbours of every core
/// point it reaches; a border point joins the first cluster that reaches
/// it; points that no cluster reaches are noise and are left out.
///
/// Returns the clusters in the order they were started (a cluster started
/// earlier has a core point below every core point of a later one), each
/// listing its points in increasing order. A point is in no later cluster
/// than that of any core point neighbouring it. Every point is in at most
/// one cluster, and
/// two points share a cluster only when they are density-connected; when
/// the neighbour relation is symmetric, neighbouring core points are always
/// in the same cluster, so the clusters are the connected groups of core
/// points with their border points.
pub fn dbscan(neighbors: &Vec<Vec<usize>>, min_points: usize) -> (clusters: Vec<Vec<usize>>)
    requires
        neighbour_lists_closed(neighbors@),
    ensures
        forall|q: int| 0 <= q < neighbors@.len() ==> (clustered(clusters@, q) <==> reachable(neighbors@, min_points, q)),
        forall|k: int, m: int| 0 <= k < clusters@.len() && 0 <= m < clusters@[k]@.len() ==> #[trigger] clusters@[k]@[m] < neighbors@.len(),
        forall|k: int| 0 <= k < clusters@.len() ==> #[trigger] clusters@[k]@.len() > 0,
        forall|k: int, a: int, b: int| 0 <= k < clusters@.len() && 0 <= a < b < clusters@[k]@.len() ==> #[trigger] clusters@[k]@[a] < #[trigger] clusters@[k]@[b],
        forall|k1: int, k2: int, q: usize| 0 <= k1 < clusters@.len() && 0 <= k2 < clusters@.len() && #[trigger] clusters@[k1]@.contains(q) && #[trigger] clusters@[k2]@.contains(q) ==> k1 == k2,
        forall|k: int, x: usize, y: usize| 0 <= k < clusters@.len() && #[trigger] clusters@[k]@.contains(x) && #[trigger] clusters@[k]@.contains(y)
            ==> density_connected(neighbors@, min_points, x as int, y as int),
        neighbour_lists_symmetric(neighbors@) ==> forall|c: usize, d: usize, k1: int, k2: int|
            0 <= k1 < clusters@.len() && 0 <= k2 < clusters@.len() && #[trigger] clusters@[k1]@.contains(c) && #[trigger] clusters@[k2]@.contains(d)
                && is_core(neighbors@, min_points, c as int) && is_core(neighbors@, min_points, d as int) && neighbors@[c as int]@.contains(d) ==> k1 == k2,
        forall|k1: int, k2: int, q: usize, c: usize| 0 <= k1 < clusters@.len() && 0 <= k2 < clusters@.len()
            && #[trigger] clusters@[k1]@.contains(q) && #[trigger] clusters@[k2]@.contains(c)
            && is_core(neighbors@, min_points, c as int) && neighbors@[c as int]@.contains(q) ==> k1 <= k2,
        forall|k1: int, k2: int, d: usize| #![trigger clusters@[k1], clusters@[k2]@.contains(d)]
            0 <= k1 < k2 < clusters@.len() && clusters@[k2]@.contains(d) && is_core(neighbors@, min_points, d as int)
            ==> has_core_below(neighbors@, min_points, clusters@[k1]@, d),
{
    let n = neighbors.len();
    let ghost nb = neighbors@;
    let ghost sym = neighbour_lists_symmetric(nb);
    let mut labels: Vec<Label> = Vec::new();
    let mut t: usize = 0;
    while t < n
        invariant
            t <= n,
            labels@.len() == t,
            forall|p: int| 0 <= p < t ==> labels@[p] == Label::Unvisited,
        decreases n - t,
    {
        labels.push(Label::Unvisited);
        t += 1;
    }
    let mut cid: usize = 0;
    let ghost mut firsts: Seq<usize> = Seq::empty();
    let mut i: usize = 0;
    while i < n
        invariant
            n == nb.len(),
            nb == neighbors@,
            neighbour_lists_closed(nb),
            i <= n,
            labels@.len() == n,
            cid <= i,
            firsts.len() == cid,
            forall|k: int| 0 <= k < cid ==> #[trigger] firsts[k] < n && labels@[firsts[k] as int] == Label::Cluster((k + 1) as usize),
            forall|p: int| 0 <= p < n ==> (#[trigger] labels@[p] matches Label::Cluster(k) ==> 1 <= k <= cid),
            forall|p: int| 0 <= p < n ==> (#[trigger] labels@[p] is Cluster ==> reachable(nb, min_points, p)),
            forall|p: int| 0 <= p < n ==> (#[trigger] labels@[p] == Label::Noise ==> !is_core(nb, min_points, p)),
            forall|p: int| 0 <= p < i ==> #[trigger] labels@[p] != Label::Unvisited,
            forall|c: int, m: int| 0 <= c < n && is_core(nb, min_points, c) && labels@[c] is Cluster && 0 <= m < nb[c]@.len() ==> (#[trigger] labels@[nb[c]@[m] as int]) is Cluster,
            sym == neighbour_lists_symmetric(nb),
            sym ==> cores_agree(nb, min_points, labels@),
            forall|k: int| 0 <= k < cid ==> is_core(nb, min_points, #[trigger] firsts[k] as int),
            forall|p: int| 0 <= p < n ==> (#[trigger] labels@[p] matches Label::Cluster(k) ==> reached_from(nb, min_points, firsts[k - 1] as int, p)),
            border_first(nb, min_points, labels@),
            seeds_first(nb, min_points, labels@, firsts),
            forall|k: int| 0 <= k < cid ==> #[trigger] firsts[k] < i,
            forall|a: int, b: int| 0 <= a < b < cid ==> #[trigger] firsts[a] < #[trigger] firsts[b],
        decreases n - i,
    {
        let is_unvisited = match labels[i] {
            Label::Unvisited => true,
            _ => false,
        };
        if is_unvisited {
            if neighbors[i].len() < min_points {
                labels.set(i, Label::Noise);
            } else {
                let ghost labels_outer = labels@;
                cid += 1;
                labels.set(i, Label::Cluster(cid));
                proof {
                    assert(finished_clusters_closed(nb, min_points, labels@, cid)) by {
                        assert forall|c: int, m: int|
                            0 <= c < nb.len() && is_core(nb, min_points, c) && (labels@[c] matches Label::Cluster(k) && k < cid) && 0 <= m < nb[c]@.len()
                                implies (#[trigger] labels@[nb[c]@[m] as int]) is Cluster by {
                            assert(c != i);
                            assert(labels_outer[c] == labels@[c]);
                            assert(labels_outer[nb[c]@[m] as int] is Cluster);
                        }
                    }
                    if sym {
                        assert forall|c: int, d: int|
                            0 <= c < nb.len() && 0 <= d < nb.len() && is_core(nb, min_points, c) && is_core(nb, min_points, d)
                                && #[trigger] nb[c]@.contains(d as usize) && labels@[c] is Cluster && labels@[d] is Cluster implies labels@[c] == labels@[d] by {
                            if c == i as int && d != i as int {
                                assert(nb[d]@.contains(c as usize));
                                let m = choose|m: int| 0 <= m < nb[d]@.len() && nb[d]@[m] == c as usize;
                                assert(labels_outer[nb[d]@[m] as int] is Cluster);
                            } else if d == i as int && c != i as int {
                                let m = choose|m: int| 0 <= m < nb[c]@.len() && nb[c]@[m] == d as usize;
                                assert(labels_outer[nb[c]@[m] as int] is Cluster);
                            } else if c != i as int && d != i as int {
                                assert(labels_outer[c] == labels@[c]);
                                assert(labels_outer[d] == labels@[d]);
                            }
                        }
                    }
                }
                proof { firsts = firsts.push(i); }
                let ghost start = seq![i as int];
                proof {
                    assert(core_chain(nb, min_points, start));
                    assert(reached_from(nb, min_points, i as int, i as int));
                    assert forall|p: int| 0 <= p < n implies (#[trigger] labels@[p] matches Label::Cluster(k) ==> reached_from(nb, min_points, firsts[k - 1] as int, p)) by {
                        if p != i as int {
                            assert(labels@[p] == labels_outer[p]);
                        }
                    }
                }
                let mut seed = copy_indices(&neighbors[i]);
                proof {
                    assert forall|m: int| 0 <= m < seed@.len() implies reached_from(nb, min_points, i as int, #[trigger] seed@[m] as int) by {
                        assert(nb[i as int]@[m] == seed@[m]);
                        assert(nb[start.last()]@.contains((seed@[m] as int) as usize));
                        assert(core_chain(nb, min_points, start));
                    }
                }
                proof {
                    assert forall|m: int| 0 <= m < seed@.len() implies #[trigger] seed@[m] < n && reachable(nb, min_points, seed@[m] as int) by {
                        assert(nb[i as int]@[m] < n);
                        assert(nb[i as int]@.contains(seed@[m]));
                        assert(nb[i as int]@.contains((seed@[m] as int) as usize));
                        assert(is_core(nb, min_points, i as int));
                    }
                }
                let mut j: usize = 0;
                while j < seed.len()
                    invariant
                        n == nb.len(),
                        nb == neighbors@,
                        neighbour_lists_closed(nb),
                        i < n,
                        labels@.len() == n,
                        1 <= cid <= i + 1,
                        firsts.len() == cid,
                        forall|k: int| 0 <= k < cid ==> #[trigger] firsts[k] < n && labels@[firsts[k] as int] == Label::Cluster((k + 1) as usize),
                        forall|p: int| 0 <= p < n ==> (#[trigger] labels@[p] matches Label::Cluster(k) ==> 1 <= k <= cid),
                        forall|p: int| 0 <= p < n ==> (#[trigger] labels@[p] is Cluster ==> reachable(nb, min_points, p)),
                        forall|p: int| 0 <= p < n ==> (#[trigger] labels@[p] == Label::Noise ==> !is_core(nb, min_points, p)),
                        forall|p: int| 0 <= p <= i ==> #[trigger] labels@[p] != Label::Unvisited,
                        j <= seed@.len(),
                        forall|m: int| 0 <= m < seed@.len() ==> #[trigger] seed@[m] < n && reachable(nb, min_points, seed@[m] as int),
                        forall|m: int| 0 <= m < j ==> (#[trigger] labels@[seed@[m] as int]) is Cluster,
                        forall|c: int, m: int| 0 <= c < n && is_core(nb, min_points, c) && labels@[c] is Cluster && 0 <= m < nb[c]@.len() ==> ((#[trigger] labels@[nb[c]@[m] as int]) is Cluster || seed@.contains(nb[c]@[m])),
                        finished_clusters_closed(nb, min_points, labels@, cid),
                        sym == neighbour_lists_symmetric(nb),
                        sym ==> cores_agree(nb, min_points, labels@),
                        forall|k: int| 0 <= k < cid ==> is_core(nb, min_points, #[trigger] firsts[k] as int),
                        forall|p: int| 0 <= p < n ==> (#[trigger] labels@[p] matches Label::Cluster(k) ==> reached_from(nb, min_points, firsts[k - 1] as int, p)),
                        firsts[cid - 1] == i,
                        forall|m: int| 0 <= m < seed@.len() ==> reached_from(nb, min_points, i as int, #[trigger] seed@[m] as int),
                        border_first(nb, min_points, labels@),
                        seeds_first(nb, min_points, labels@, firsts),
                        forall|k: int| 0 <= k < cid ==> #[trigger] firsts[k] <= i,
                        forall|a: int, b: int| 0 <= a < b < cid ==> #[trigger] firsts[a] < #[trigger] firsts[b],
                    decreases unvisited_count(labels@), seed@.len() - j,
                {
                    let q = seed[j];
                    let ghost labels_before = labels@;
                    let ghost seed_before = seed@;
                    match labels[q] {
                        Label::Noise => {
                            proof { lemma_unvisited_update(labels@, q as int, Label::Cluster(cid)); }
                            labels.set(q, Label::Cluster(cid));
                        },
                        Label::Unvisited => {
                            proof { lemma_unvisited_update(labels@, q as int, Label::Cluster(cid)); }
                            labels.set(q, Label::Cluster(cid));
                            if neighbors[q].len() >= min_points {
                                let qn = &neighbors[q];
                                let ghost seed0 = seed@;
                                let ghost pth = choose|path: Seq<int>| #[trigger] core_chain(nb, min_points, path) && path[0] == i as int
                                    && (path.last() == q as int || nb[path.last()]@.contains(q));
                                let ghost pq = if pth.last() == q as int { pth } else { pth.push(q as int) };
                                proof {
                                    assert(reached_from(nb, min_points, i as int, seed@[j as int] as int));
                                    assert(core_chain(nb, min_points, pth) && pth[0] == i as int
                                        && (pth.last() == q as int || nb[pth.last()]@.contains(q)));
                                    if pth.last() != q as int {
                                        assert forall|a: int, b: int| 0 <= a && b == a + 1 && b < pq.len() implies nb[#[trigger] pq[a]]@.contains(#[trigger] pq[b] as usize) by {
                                            if b < pth.len() {
                                                assert(pq[a] == pth[a] && pq[b] == pth[b]);
                                            } else {
                                                assert(pq[a] == pth.last());
                                                assert(pq[b] == q as int);
                                            }
                                        }
                                        assert forall|jj: int| 0 <= jj < pq.len() implies 0 <= #[trigger] pq[jj] < nb.len() && is_core(nb, min_points, pq[jj]) by {
                                            if jj < pth.len() {
                                                assert(pq[jj] == pth[jj]);
                                            }
                                        }
                                    }
                                    assert(core_chain(nb, min_points, pq));
                                }
                                let mut t2: usize = 0;
                                while t2 < qn.len()
                                    invariant
                                        n == nb.len(),
                                        nb == neighbors@,
                                        neighbour_lists_closed(nb),
                                        q < n,
                                        qn@ == nb[q as int]@,
                                        is_core(nb, min_points, q as int),
                                        t2 <= qn@.len(),
                                        j < seed0.len(),
                                        seed@.len() >= seed0.len(),
                                        seed@.take(seed0.len() as int) == seed0,
                                        forall|m: int| 0 <= m < seed@.len() ==> #[trigger] seed@[m] < n && reachable(nb, min_points, seed@[m] as int),
                                        forall|m: int| 0 <= m < t2 ==> seed@.contains(#[trigger] qn@[m]),
                                        forall|x: usize| seed0.contains(x) ==> seed@.contains(x),
                                        core_chain(nb, min_points, pq),
                                        pq[0] == i as int,
                                        pq.last() == q as int,
                                        forall|m: int| 0 <= m < seed@.len() ==> reached_from(nb, min_points, i as int, #[trigger] seed@[m] as int),
                                    decreases qn.len() - t2,
                                {
                                    let x = qn[t2];
                                    if !contains_index(&seed, x) {
                                        proof {
                                            assert(nb[q as int]@.contains(x)) by { assert(nb[q as int]@[t2 as int] == x); }
                                            assert(nb[q as int]@[t2 as int] < n);
                                        }
                                        let ghost before = seed@;
                                        seed.push(x);
                                        proof {
                                            assert(seed@.take(seed0.len() as int) =~= before.take(seed0.len() as int));
                                            assert forall|y: usize| before.contains(y) implies seed@.contains(y) by {
                                                let w = choose|w: int| 0 <= w < before.len() && before[w] == y;
                                                assert(seed@[w] == y);
                                            }
                                            assert(seed@[before.len() as int] == x);
                                            assert forall|m: int| 0 <= m < seed@.len() implies #[trigger] seed@[m] < n && reachable(nb, min_points, seed@[m] as int) by {
                                                if m < before.len() {
                                                    assert(seed@[m] == before[m]);
                                                } else {
                                                    assert(seed@[m] == x);
                                                    assert(nb[q as int]@.contains((x as int) as usize));
                                                }
                                            }
                                            assert forall|m: int| 0 <= m < seed@.len() implies reached_from(nb, min_points, i as int, #[trigger] seed@[m] as int) by {
                                                if m < before.len() {
                                                    assert(seed@[m] == before[m]);
                                                } else {
                                                    assert(seed@[m] == x);
                                                    assert(nb[pq.last()]@.contains((x as int) as usize));
                                                }
                                            }
                                        }
                                    }
                                    proof {
                                        assert(seed@.contains(qn@[t2 as int]));
                                    }
                                    t2 += 1;
                                }
                                proof {
                                    assert forall|m: int| 0 <= m < seed0.len() implies seed@[m] == seed0[m] by {
                                        assert(seed@.take(seed0.len() as int)[m] == seed@[m]);
                                    }
                                }
                            }
                        },
                        Label::Cluster(_) => {},
                    }
                    proof {
                        assert(finished_clusters_closed(nb, min_points, labels@, cid)) by {
                            assert forall|c: int, m: int|
                                0 <= c < nb.len() && is_core(nb, min_points, c) && (labels@[c] matches Label::Cluster(k) && k < cid) && 0 <= m < nb[c]@.len()
                                    implies (#[trigger] labels@[nb[c]@[m] as int]) is Cluster by {
                                if c == q as int {
                                    assert(labels_before[q as int] is Cluster);
                                }
                                assert(labels_before[c] == labels@[c]);
                                assert(labels_before[nb[c]@[m] as int] is Cluster);
                                if nb[c]@[m] != q {
                                    assert(labels@[nb[c]@[m] as int] == labels_before[nb[c]@[m] as int]);
                                }
                            }
                        }
                        if sym {
                            assert forall|c: int, d: int|
                                0 <= c < nb.len() && 0 <= d < nb.len() && is_core(nb, min_points, c) && is_core(nb, min_points, d)
                                    && #[trigger] nb[c]@.contains(d as usize) && labels@[c] is Cluster && labels@[d] is Cluster implies labels@[c] == labels@[d] by {
                                if c != q as int && d != q as int {
                                    assert(labels_before[c] == labels@[c]);
                                    assert(labels_before[d] == labels@[d]);
                                } else if c == q as int && d == q as int {
                                } else if labels_before[q as int] is Cluster {
                                    assert(labels_before[c] == labels@[c]);
                                    assert(labels_before[d] == labels@[d]);
                                } else if c == q as int {
                                    assert(labels_before[q as int] == Label::Unvisited);
                                    assert(labels_before[d] == labels@[d]);
                                    assert(nb[d]@.contains(c as usize));
                                    let m = choose|m: int| 0 <= m < nb[d]@.len() && nb[d]@[m] == c as usize;
                                    if labels_before[d]->Cluster_0 < cid {
                                        assert(labels_before[nb[d]@[m] as int] is Cluster);
                                    }
                                } else {
                                    assert(labels_before[q as int] == Label::Unvisited);
                                    assert(labels_before[c] == labels@[c]);
                                    let m = choose|m: int| 0 <= m < nb[c]@.len() && nb[c]@[m] == d as usize;
                                    if labels_before[c]->Cluster_0 < cid {
                                        assert(labels_before[nb[c]@[m] as int] is Cluster);
                                    }
                                }
                            }
                        }
                        assert(seed@.len() >= seed_before.len());
                        assert forall|m: int| 0 <= m < seed_before.len() implies seed@[m] == seed_before[m] by {}
                        assert(labels@[q as int] is Cluster);
                        assert forall|m: int| 0 <= m < j + 1 implies (#[trigger] labels@[seed@[m] as int]) is Cluster by {
                            if m < j {
                                assert(labels_before[seed_before[m] as int] is Cluster);
                                assert(seed@[m] == seed_before[m]);
                                if seed_before[m] != q {
                                    assert(labels@[seed_before[m] as int] == labels_before[seed_before[m] as int]);
                                }
                            }
                        }
                    }
                    j += 1;
                }
                proof {
                    assert forall|c: int, m: int| 0 <= c < n && is_core(nb, min_points, c) && labels@[c] is Cluster && 0 <= m < nb[c]@.len() implies (#[trigger] labels@[nb[c]@[m] as int]) is Cluster by {
                        if !(labels@[nb[c]@[m] as int] is Cluster) {
                            assert(seed@.contains(nb[c]@[m]));
                            let w = choose|w: int| 0 <= w < seed@.len() && seed@[w] == nb[c]@[m];
                            assert(labels@[seed@[w] as int] is Cluster);
                        }
                    }
                }
            }
        }
        i += 1;
    }
    // Every point is labelled now; a point is in a cluster exactly when it
    // is reachable.
    proof {
        assert forall|q: int| 0 <= q < n && reachable(nb, min_points, q) implies #[trigger] labels@[q] is Cluster by {
            if is_core(nb, min_points, q) {
                assert(labels@[q] != Label::Unvisited);
            } else {
                let c = choose|c: int| 0 <= c < nb.len() && is_core(nb, min_points, c) && #[trigger] nb[c]@.contains(q as usize);
                assert(labels@[c] != Label::Unvisited);
                let m = choose|m: int| 0 <= m < nb[c]@.len() && nb[c]@[m] == q as usize;
                assert(labels@[nb[c]@[m] as int] is Cluster);
            }
        }
    }
    let mut clusters: Vec<Vec<usize>> = Vec::new();
    let mut k: usize = 0;
    while k < cid
        invariant
            n == nb.len(),
            labels@.len() == n,
            k <= cid,
            clusters@.len() == k,
            firsts.len() == cid,
            forall|k2: int| 0 <= k2 < cid ==> #[trigger] firsts[k2] < n && labels@[firsts[k2] as int] == Label::Cluster((k2 + 1) as usize),
            forall|k2: int, m: int| 0 <= k2 < k && 0 <= m < clusters@[k2]@.len() ==> #[trigger] clusters@[k2]@[m] < n && labels@[clusters@[k2]@[m] as int] == Label::Cluster((k2 + 1) as usize),
            forall|k2: int, p: int| 0 <= k2 < k && 0 <= p < n && labels@[p] == Label::Cluster((k2 + 1) as usize) ==> #[trigger] clusters@[k2]@.contains(p as usize),
            forall|k2: int, a: int, b: int| 0 <= k2 < k && 0 <= a < b < clusters@[k2]@.len() ==> #[trigger] clusters@[k2]@[a] < #[trigger] clusters@[k2]@[b],
        decreases cid - k,
    {
        let mut members: Vec<usize> = Vec::new();
        let mut p: usize = 0;
        while p < n
            invariant
                n == labels@.len(),
                k < cid,
                p <= n,
                forall|m: int| 0 <= m < members@.len() ==> #[trigger] members@[m] < p && labels@[members@[m] as int] == Label::Cluster((k + 1) as usize),
                forall|p2: int| 0 <= p2 < p && labels@[p2] == Label::Cluster((k + 1) as usize) ==> #[trigger] members@.contains(p2 as usize),
                forall|a: int, b: int| 0 <= a < b < members@.len() ==> #[trigger] members@[a] < #[trigger] members@[b],
            decreases n - p,
        {
            let same = match labels[p] {
                Label::Cluster(c) => c == k + 1,
                _ => false,
            };
            if same {
                let ghost before = members@;
                members.push(p);
                proof {
                    assert forall|p2: int| 0 <= p2 < p + 1 && labels@[p2] == Label::Cluster((k + 1) as usize) implies #[trigger] members@.contains(p2 as usize) by {
                        if p2 < p {
                            assert(before.contains(p2 as usize));
                            let w = choose|w: int| 0 <= w < before.len() && before[w] == p2 as usize;
                            assert(members@[w] == p2 as usize);
                        } else {
                            assert(members@[before.len() as int] == p2 as usize);
                        }
                    }
                }
            }
            p += 1;
        }
        proof {
            let f = firsts[k as int];
            assert(labels@[f as int] == Label::Cluster((k + 1) as usize));
            assert(members@.contains((f as int) as usize));
        }
        clusters.push(members);
        k += 1;
    }
    proof {
        assert forall|q: int| 0 <= q < n implies (clustered(clusters@, q) <==> reachable(nb, min_points, q)) by {
            if clustered(clusters@, q) {
                let k2 = choose|k2: int| 0 <= k2 < clusters@.len() && #[trigger] clusters@[k2]@.contains(q as usize);
                let m = choose|m: int| 0 <= m < clusters@[k2]@.len() && clusters@[k2]@[m] == q as usize;
                assert(labels@[clusters@[k2]@[m] as int] == Label::Cluster((k2 + 1) as usize));
            }
            if reachable(nb, min_points, q) {
                assert(labels@[q] is Cluster);
                let c = labels@[q]->Cluster_0;
                assert(1 <= c <= cid);
                assert(clusters@[c - 1]@.contains(q as usize));
            }
        }
        assert forall|k1: int, k2: int, q: usize| 0 <= k1 < clusters@.len() && 0 <= k2 < clusters@.len() && #[trigger] clusters@[k1]@.contains(q) && #[trigger] clusters@[k2]@.contains(q) implies k1 == k2 by {
            let m1 = choose|m: int| 0 <= m < clusters@[k1]@.len() && clusters@[k1]@[m] == q;
            let m2 = choose|m: int| 0 <= m < clusters@[k2]@.len() && clusters@[k2]@[m] == q;
            assert(labels@[clusters@[k1]@[m1] as int] == Label::Cluster((k1 + 1) as usize));
            assert(labels@[clusters@[k2]@[m2] as int] == Label::Cluster((k2 + 1) as usize));
        }
        assert forall|k2: int| 0 <= k2 < clusters@.len() implies #[trigger] clusters@[k2]@.len() > 0 by {
            let f = firsts[k2];
            assert(clusters@[k2]@.contains(f));
        }
        if sym {
            assert forall|c: usize, d: usize, k1: int, k2: int|
                0 <= k1 < clusters@.len() && 0 <= k2 < clusters@.len() && #[trigger] clusters@[k1]@.contains(c) && #[trigger] clusters@[k2]@.contains(d)
                    && is_core(nb, min_points, c as int) && is_core(nb, min_points, d as int) && nb[c as int]@.contains(d) implies k1 == k2 by {
                let m1 = choose|m: int| 0 <= m < clusters@[k1]@.len() && clusters@[k1]@[m] == c;
                let m2 = choose|m: int| 0 <= m < clusters@[k2]@.len() && clusters@[k2]@[m] == d;
                assert(labels@[clusters@[k1]@[m1] as int] == Label::Cluster((k1 + 1) as usize));
                assert(labels@[clusters@[k2]@[m2] as int] == Label::Cluster((k2 + 1) as usize));
                assert(nb[c as int]@.contains((d as int) as usize));
            }
        }
        lemma_cluster_order(nb, min_points, labels@, firsts, clusters@);
    }
    clusters
}


/// Whether some node of a cluster is a graph neighbour of a later one:
/// `neighbors[i]` lists the neighbours of node `ids[i]`.
pub open spec fn linked_pair(ids: Seq<u128>, neighbors: Seq<Vec<u128>>) -> bool {
    exists|i: int, j: int| 0 <= i < j < ids.len() && #[trigger] neighbors[i]@.contains(#[trigger] ids[j])
}

/// Whether any two nodes of a cluster are already linked in the graph.
pub fn any_linked(ids: &Vec<u128>, neighbors: &Vec<Vec<u128>>) -> (b: bool)
    requires
        neighbors@.len() == ids@.len(),
    ensures
        b == linked_pair(ids@, neighbors@),
{
    let n = ids.len();
    let mut i: usize = 0;
    while i < n
        invariant
            n == ids@.len() == neighbors@.len(),
            i <= n,
            forall|a: int, c: int| 0 <= a < i && a < c < n ==> !(#[trigger] neighbors@[a]@.contains(#[trigger] ids@[c])),
        decreases n - i,
    {
        let nb = &neighbors[i];
        let mut j: usize = i + 1;
        while j < n
            invariant
                n == ids@.len() == neighbors@.len(),
                i < n,
                i < j <= n,
                nb@ == neighbors@[i as int]@,
                forall|c: int| i < c < j ==> !neighbors@[i as int]@.contains(#[trigger] ids@[c]),
            decreases n - j,
        {
            let target = ids[j];
            let mut k: usize = 0;
            while k < nb.len()
                invariant
                    n == ids@.len() == neighbors@.len(),
                    i < j < n,
                    nb@ == neighbors@[i as int]@,
                    target == ids@[j as int],
                    forall|c: int| i < c < j ==> !neighbors@[i as int]@.contains(#[trigger] ids@[c]),
                    k <= nb@.len(),
                    forall|m: int| 0 <= m < k ==> nb@[m] != target,
                decreases nb.len() - k,
            {
                if nb[k] == target {
                    proof {
                        assert(nb@[k as int] == target);
                        assert(neighbors@[i as int]@.contains(ids@[j as int]));
                    }
                    return true;
                }
                k += 1;
            }
            proof {
                assert(!nb@.contains(target));
            }
            j += 1;
        }
        i += 1;
    }
    false
}

/// Whether two nodes of a cluster share a tag.
pub open spec fn shares_tag(tags: Seq<Vec<String>>) -> bool {
    exists|a: int, b: int, x: int, y: int|
        0 <= a < tags.len() && 0 <= b < tags.len() && a != b && 0 <= x < tags[a]@.len() && 0 <= y < tags[b]@.len()
            && #[trigger] tags[a]@[x]@ == #[trigger] tags[b]@[y]@
}

fn holds_tag(node_tags: &Vec<String>, tag: &String) -> (b: bool)
    ensures
        b == exists|y: int| 0 <= y < node_tags@.len() && #[trigger] node_tags@[y]@ == tag@,
{
    let t = chars_of(tag.as_str());
    let mut y: usize = 0;
    while y < node_tags.len()
        invariant
            y <= node_tags@.len(),
            t@ == tag@,
            forall|m: int| 0 <= m < y ==> #[trigger] node_tags@[m]@ != tag@,
        decreases node_tags.len() - y,
    {
        let c = chars_of(node_tags[y].as_str());
        if chars_eq(c.as_slice(), t.as_slice()) {
            return true;
        }
        y += 1;
    }
    false
}

/// Whether two nodes of a cluster share a tag.
pub fn has_shared_tag(tags: &Vec<Vec<String>>) -> (b: bool)
    ensures
        b == shares_tag(tags@),
{
    let n = tags.len();
    let mut a: usize = 0;
    while a < n
        invariant
            n == tags@.len(),
            a <= n,
            forall|a2: int, b2: int, x: int, y: int|
                0 <= a2 < a && a2 < b2 < n && 0 <= x < tags@[a2]@.len() && 0 <= y < tags@[b2]@.len()
                    ==> #[trigger] tags@[a2]@[x]@ != #[trigger] tags@[b2]@[y]@,
        decreases n - a,
    {
        let mut b: usize = a + 1;
        while b < n
            invariant
                n == tags@.len(),
                a < n,
                a < b <= n,
                forall|a2: int, b2: int, x: int, y: int|
                    0 <= a2 < a && a2 < b2 < n && 0 <= x < tags@[a2]@.len() && 0 <= y < tags@[b2]@.len()
                        ==> #[trigger] tags@[a2]@[x]@ != #[trigger] tags@[b2]@[y]@,
                forall|b2: int, x: int, y: int|
                    a < b2 < b && 0 <= x < tags@[a as int]@.len() && 0 <= y < tags@[b2]@.len()
                        ==> #[trigger] tags@[a as int]@[x]@ != #[trigger] tags@[b2]@[y]@,
            decreases n - b,
        {
            let mut x: usize = 0;
            while x < tags[a].len()
                invariant
                    n == tags@.len(),
                    a < b < n,
                    x <= tags@[a as int]@.len(),
                    forall|x2: int, y: int|
                        0 <= x2 < x && 0 <= y < tags@[b as int]@.len() ==> #[trigger] tags@[a as int]@[x2]@ != #[trigger] tags@[b as int]@[y]@,
                decreases tags@[a as int]@.len() - x,
            {
                if holds_tag(&tags[b], &tags[a][x]) {
                    return true;
                }
                x += 1;
            }
            b += 1;
        }
        a += 1;
    }
    proof {
        assert forall|a2: int, b2: int, x: int, y: int|
            0 <= a2 < n && 0 <= b2 < n && a2 != b2 && 0 <= x < tags@[a2]@.len() && 0 <= y < tags@[b2]@.len()
                implies !(#[trigger] tags@[a2]@[x]@ == #[trigger] tags@[b2]@[y]@) by {
            if a2 > b2 {
                assert(tags@[b2]@[y]@ != tags@[a2]@[x]@);
            }
        }
    }
    false
}

/// Which candidate insights are new: a candidate is kept unless its
/// signature belongs to an existing insight that is not dismissed, or to
/// an earlier candidate.
pub open spec fn is_fresh(existing: Seq<(String, bool)>, candidates: Seq<String>, i: int) -> bool {
    &&& !exists|k: int| 0 <= k < existing.len() && !existing[k].1 && #[trigger] existing[k].0@ == candidates[i]@
    &&& !exists|j: int| 0 <= j < i && #[trigger] candidates[j]@ == candidates[i]@
}

/// For each candidate signature, whether the insight is new and is to be
/// persisted; `existing` pairs each stored insight's signature with whether
/// it was dismissed.
pub fn fresh_insights(existing: &Vec<(String, bool)>, candidates: &Vec<String>) -> (keep: Vec<bool>)
    ensures
        keep@.len() == candidates@.len(),
        forall|i: int| 0 <= i < candidates@.len() ==> keep@[i] == is_fresh(existing@, candidates@, i),
{
    let mut keep: Vec<bool> = Vec::new();
    let mut i: usize = 0;
    while i < candidates.len()
        invariant
            i <= candidates@.len(),
            keep@.len() == i,
            forall|i2: int| 0 <= i2 < i ==> keep@[i2] == is_fresh(existing@, candidates@, i2),
        decreases candidates.len() - i,
    {
        let c = chars_of(candidates[i].as_str());
        let mut seen = false;
        let mut k: usize = 0;
        while k < existing.len()
            invariant
                k <= existing@.len(),
                c@ == candidates@[i as int]@,
                seen == exists|k2: int| 0 <= k2 < k && !existing@[k2].1 && #[trigger] existing@[k2].0@ == candidates@[i as int]@,
            decreases existing.len() - k,
        {
            if !existing[k].1 {
                let e = chars_of(existing[k].0.as_str());
                if chars_eq(e.as_slice(), c.as_slice()) {
                    seen = true;
                }
            }
            k += 1;
        }
        let mut j: usize = 0;
        let mut earlier = false;
        while j < i
            invariant
                j <= i < candidates@.len(),
                c@ == candidates@[i as int]@,
                earlier == exists|j2: int| 0 <= j2 < j && #[trigger] candidates@[j2]@ == candidates@[i as int]@,
            decreases i - j,
        {
            let d = chars_of(candidates[j].as_str());
            if chars_eq(d.as_slice(), c.as_slice()) {
                earlier = true;
            }
            j += 1;
        }
        keep.push(!seen && !earlier);
        i += 1;
    }
    keep
}


/// Every tag of a cluster's nodes, node after node.
pub open spec fn all_tags(tags: Seq<Vec<String>>) -> Seq<Seq<char>>
    decreases tags.len(),
{
    if tags.len() == 0 {
        Seq::empty()
    } else {
        all_tags(tags.drop_last()) + strings_view(tags.last()@)
    }
}

/// How often `t` occurs in `s`.
pub open spec fn occurrences(s: Seq<Seq<char>>, t: Seq<char>) -> nat
    decreases s.len(),
{
    if s.len() == 0 {
        0
    } else {
        occurrences(s.drop_last(), t) + if s.last() == t { 1nat } else { 0nat }
    }
}

/// Whether `t` may be suggested for a cluster whose tags are `all`: one of
/// its most frequent tags, or `untagged-cluster` when it has none.
pub open spec fn is_suggested_tag(all: Seq<Seq<char>>, t: Seq<char>) -> bool {
    if all.len() == 0 {
        t == "untagged-cluster"@
    } else {
        all.contains(t) && forall|u: Seq<char>| #[trigger] all.contains(u) ==> occurrences(all, u) <= occurrences(all, t)
    }
}

fn flatten_tags(tags: &Vec<Vec<String>>) -> (out: Vec<String>)
    ensures
        strings_view(out@) == all_tags(tags@),
{
    let mut out: Vec<String> = Vec::new();
    let mut i: usize = 0;
    proof { assert(strings_view(out@) =~= all_tags(tags@.take(0))); }
    while i < tags.len()
        invariant
            i <= tags@.len(),
            strings_view(out@) == all_tags(tags@.take(i as int)),
        decreases tags.len() - i,
    {
        let node = &tags[i];
        let ghost base = out@;
        let mut x: usize = 0;
        proof { assert(strings_view(out@) =~= strings_view(base) + strings_view(node@.take(0))); }
        while x < node.len()
            invariant
                x <= node@.len(),
                node@ == tags@[i as int]@,
                strings_view(out@) == strings_view(base) + strings_view(node@.take(x as int)),
            decreases node.len() - x,
        {
            let ghost prev = out@;
            out.push(node[x].clone());
            proof {
                assert(strings_view(out@) =~= strings_view(prev).push(node@[x as int]@));
                assert(strings_view(node@.take(x + 1)) =~= strings_view(node@.take(x as int)).push(node@[x as int]@));
                assert(strings_view(out@) =~= strings_view(base) + strings_view(node@.take(x + 1)));
            }
            x += 1;
        }
        proof {
            assert(node@.take(node@.len() as int) =~= node@);
            assert(tags@.take(i + 1).drop_last() =~= tags@.take(i as int));
            assert(tags@.take(i + 1).last() == tags@[i as int]);
        }
        i += 1;
    }
    proof { assert(tags@.take(tags@.len() as int) =~= tags@); }
    out
}

fn count_occurrences(all: &Vec<String>, t: &String) -> (c: usize)
    ensures
        c == occurrences(strings_view(all@), t@),
{
    let ghost sv = strings_view(all@);
    let tc = chars_of(t.as_str());
    let mut c: usize = 0;
    let mut i: usize = 0;
    proof { assert(sv.take(0) =~= Seq::<Seq<char>>::empty()); }
    while i < all.len()
        invariant
            i <= all@.len(),
            sv == strings_view(all@),
            tc@ == t@,
            c <= i,
            c == occurrences(sv.take(i as int), t@),
        decreases all.len() - i,
    {
        proof {
            assert(sv.take(i + 1).drop_last() =~= sv.take(i as int));
            assert(sv.take(i + 1).last() == all@[i as int]@);
        }
        let a = chars_of(all[i].as_str());
        if chars_eq(a.as_slice(), tc.as_slice()) {
            c += 1;
        }
        i += 1;
    }
    proof { assert(sv.take(all@.len() as int) =~= sv); }
    c
}

/// The tag suggested for a cluster: a most frequent tag among its nodes'
/// tags, or `untagged-cluster` when they have none.
pub fn suggested_tag(tags: &Vec<Vec<String>>) -> (t: String)
    ensures
        is_suggested_tag(all_tags(tags@), t@),
{
    let all = flatten_tags(tags);
    let ghost sv = strings_view(all@);
    if all.len() == 0 {
        return "untagged-cluster".to_string();
    }
    let mut best: usize = 0;
    let mut best_count = count_occurrences(&all, &all[0]);
    let mut i: usize = 1;
    while i < all.len()
        invariant
            sv == strings_view(all@),
            1 <= i <= all@.len(),
            best < all@.len(),
            best_count == occurrences(sv, sv[best as int]),
            forall|m: int| 0 <= m < i ==> occurrences(sv, #[trigger] sv[m]) <= best_count,
        decreases all.len() - i,
    {
        let c = count_occurrences(&all, &all[i]);
        if c > best_count {
            best = i;
            best_count = c;
        }
        i += 1;
    }
    proof {
        assert(sv.contains(sv[best as int]));
        assert forall|u: Seq<char>| #[trigger] sv.contains(u) implies occurrences(sv, u) <= occurrences(sv, sv[best as int]) by {
            let m = choose|m: int| 0 <= m < sv.len() && sv[m] == u;
            assert(occurrences(sv, sv[m]) <= best_count);
        }
    }
    all[best].clone()
}

/// The titled nodes among `titles`, in order.
pub open spec fn titled(titles: Seq<Option<String>>) -> Seq<Seq<char>>
    decreases titles.len(),
{
    if titles.len() == 0 {
        Seq::empty()
    } else {
        titled(titles.drop_last()) + match titles.last() {
            Some(t) => seq![t@],
            None => Seq::empty(),
        }
    }
}

/// The examples named in an unlinked-cluster insight: the titles among the
/// first three nodes, or `untitled nodes` when none of them has one.
pub open spec fn examples_text(titles: Seq<Option<String>>) -> Seq<char> {
    let shown = titled(if titles.len() > 3 { titles.take(3) } else { titles });
    if shown.len() == 0 {
        "untitled nodes"@
    } else {
        join_with(shown, ", "@)
    }
}

/// Names a few nodes of a cluster by title.
pub fn cluster_examples(titles: &Vec<Option<String>>) -> (out: String)
    ensures
        out@ == examples_text(titles@),
{
    let n: usize = if titles.len() > 3 { 3 } else { titles.len() };
    let ghost first = if titles@.len() > 3 { titles@.take(3) } else { titles@ };
    let mut shown: Vec<String> = Vec::new();
    let mut i: usize = 0;
    proof { assert(first.len() == n); assert(first.take(0) =~= Seq::<Option<String>>::empty()); }
    while i < n
        invariant
            i <= n <= titles@.len(),
            first.len() == n,
            forall|k: int| 0 <= k < n ==> first[k] == titles@[k],
            strings_view(shown@) == titled(first.take(i as int)),
        decreases n - i,
    {
        proof {
            assert(first.take(i + 1).drop_last() =~= first.take(i as int));
            assert(first.take(i + 1).last() == titles@[i as int]);
        }
        match &titles[i] {
            Some(t) => {
                shown.push(t.clone());
                proof {
                    assert(strings_view(shown@) =~= titled(first.take(i as int)) + seq![t@]);
                }
            },
            None => {
                proof {
                    assert(titled(first.take(i as int)) + Seq::<Seq<char>>::empty() =~= titled(first.take(i as int)));
                }
            },
        }
        i += 1;
    }
    proof { assert(first.take(n as int) =~= first); }
    if shown.len() == 0 {
        "untitled nodes".to_string()
    } else {
        join_strings(&shown, ", ")
    }
}

/// The title of an unlinked-cluster insight over `n` nodes.
pub open spec fn cluster_title_text(n: nat) -> Seq<char> {
    "Unlinked cluster of "@ + decimal_text(n) + " nodes"@
}

/// The body of an unlinked-cluster insight.
pub open spec fn cluster_content_text(n: nat, examples: Seq<char>, tag: Seq<char>) -> Seq<char> {
    decimal_text(n) + " semantically similar nodes have no shared tags or links. Examples: "@ + examples
        + ". Suggested tag: '"@ + tag + "'."@
}

/// The text of an insight about a cluster whose nodes share no tag and no
/// link.
pub struct UnlinkedCluster {
    pub title: String,
    pub content: String,
    pub suggested_tag: String,
}

/// Decides whether a cluster (each node's tags and title, and whether any
/// two of its nodes are linked) is surfaced as an unlinked cluster, and
/// writes the insight: only clusters whose nodes share no tag and no link
/// are.
pub fn unlinked_cluster_insight(tags: &Vec<Vec<String>>, titles: &Vec<Option<String>>, linked: bool) -> (r: Option<UnlinkedCluster>)
    ensures
        r is None <==> (shares_tag(tags@) || linked),
        r matches Some(c) ==> {
            &&& is_suggested_tag(all_tags(tags@), c.suggested_tag@)
            &&& c.title@ == cluster_title_text(tags@.len())
            &&& c.content@ == cluster_content_text(tags@.len(), examples_text(titles@), c.suggested_tag@)
        },
{
    if has_shared_tag(tags) || linked {
        return None;
    }
    let count = decimal_string(tags.len() as u64);
    let tag = suggested_tag(tags);
    let examples = cluster_examples(titles);
    let t1 = concat_str("Unlinked cluster of ", count.as_str());
    let title = concat_str(t1.as_str(), " nodes");
    let c1 = concat_str(count.as_str(), " semantically similar nodes have no shared tags or links. Examples: ");
    let c2 = concat_str(c1.as_str(), examples.as_str());
    let c3 = concat_str(c2.as_str(), ". Suggested tag: '");
    let c4 = concat_str(c3.as_str(), tag.as_str());
    let content = concat_str(c4.as_str(), "'.");
    Some(UnlinkedCluster { title, content, suggested_tag: tag })
}

/// A node as unlinked-cluster detection reads it: its id, tags and title,
/// and the ids of its neighbours in the graph.
pub struct ClusterNode {
    pub id: u128,
    pub tags: Vec<String>,
    pub title: Option<String>,
    pub graph_neighbors: Vec<u128>,
}

/// An unlinked cluster that detection reports: its insight and the ids of
/// its nodes, in cluster order.
pub struct ClusterReport {
    pub insight: UnlinkedCluster,
    pub related_nodes: Vec<u128>,
}

/// The nodes of a cluster, given as indices into `nodes`.
pub open spec fn members(nodes: Seq<ClusterNode>, cluster: Seq<usize>) -> Seq<ClusterNode> {
    cluster.map_values(|i: usize| nodes[i as int])
}

pub open spec fn member_ids(ms: Seq<ClusterNode>) -> Seq<u128> {
    ms.map_values(|n: ClusterNode| n.id)
}

pub open spec fn member_tags(ms: Seq<ClusterNode>) -> Seq<Vec<String>> {
    ms.map_values(|n: ClusterNode| n.tags)
}

pub open spec fn member_titles(ms: Seq<ClusterNode>) -> Seq<Option<String>> {
    ms.map_values(|n: ClusterNode| n.title)
}

pub open spec fn member_neighbors(ms: Seq<ClusterNode>) -> Seq<Vec<u128>> {
    ms.map_values(|n: ClusterNode| n.graph_neighbors)
}

/// Whether the nodes of a cluster share no tag and no graph link.
pub open spec fn is_unlinked(ms: Seq<ClusterNode>) -> bool {
    !shares_tag(member_tags(ms)) && !linked_pair(member_ids(ms), member_neighbors(ms))
}

/// Whether `r` is a report of the cluster of nodes `ms`.
pub open spec fn report_fits(ms: Seq<ClusterNode>, r: ClusterReport) -> bool {
    &&& r.related_nodes@ == member_ids(ms)
    &&& is_suggested_tag(all_tags(member_tags(ms)), r.insight.suggested_tag@)
    &&& r.insight.title@ == cluster_title_text(ms.len())
    &&& r.insight.content@ == cluster_content_text(ms.len(), examples_text(member_titles(ms)), r.insight.suggested_tag@)
}

/// Whether every index of every cluster names one of `n` nodes.
pub open spec fn clusters_within(clusters: Seq<Vec<usize>>, n: nat) -> bool {
    forall|k: int, m: int| 0 <= k < clusters.len() && 0 <= m < clusters[k]@.len() ==> #[trigger] clusters[k]@[m] < n
}

/// The positions, in order, of the clusters whose nodes share no tag and no
/// link.
pub open spec fn unlinked_positions(nodes: Seq<ClusterNode>, clusters: Seq<Vec<usize>>) -> Seq<int>
    decreases clusters.len(),
{
    if clusters.len() == 0 {
        Seq::empty()
    } else {
        let p = unlinked_positions(nodes, clusters.drop_last());
        if is_unlinked(members(nodes, clusters.last()@)) { p.push(clusters.len() - 1) } else { p }
    }
}

/// Whether `out` reports, in order, exactly the unlinked clusters among
/// `clusters`.
pub open spec fn reports_fit(nodes: Seq<ClusterNode>, clusters: Seq<Vec<usize>>, out: Seq<ClusterReport>) -> bool {
    let pos = unlinked_positions(nodes, clusters);
    &&& out.len() == pos.len()
    &&& forall|j: int| 0 <= j < out.len() ==> report_fits(members(nodes, clusters[pos[j]]@), #[trigger] out[j])
}

proof fn lemma_unlinked_positions_bound(nodes: Seq<ClusterNode>, clusters: Seq<Vec<usize>>)
    ensures
        forall|j: int| 0 <= j < unlinked_positions(nodes, clusters).len()
            ==> 0 <= #[trigger] unlinked_positions(nodes, clusters)[j] < clusters.len(),
    decreases clusters.len(),
{
    if clusters.len() > 0 {
        lemma_unlinked_positions_bound(nodes, clusters.drop_last());
        let p = unlinked_positions(nodes, clusters.drop_last());
        if is_unlinked(members(nodes, clusters.last()@)) {
            assert(unlinked_positions(nodes, clusters) == p.push(clusters.len() - 1));
            assert forall|j: int| 0 <= j < p.len() + 1 implies 0 <= #[trigger] p.push(clusters.len() - 1)[j] < clusters.len() by {
                if j < p.len() {
                    assert(p.push(clusters.len() - 1)[j] == p[j]);
                }
            }
        }
    }
}

/// Tag lists with the same text have the same shared tags and the same
/// tags in all.
proof fn lemma_tags_by_view(a: Seq<Vec<String>>, b: Seq<Vec<String>>)
    requires
        a.len() == b.len(),
        forall|i: int| 0 <= i < a.len() ==> (#[trigger] a[i])@ == b[i]@,
    ensures
        shares_tag(a) == shares_tag(b),
        all_tags(a) == all_tags(b),
    decreases a.len(),
{
    if shares_tag(a) {
        let (i, j, x, y) = choose|i: int, j: int, x: int, y: int|
            0 <= i < a.len() && 0 <= j < a.len() && i != j && 0 <= x < a[i]@.len() && 0 <= y < a[j]@.len()
                && #[trigger] a[i]@[x]@ == #[trigger] a[j]@[y]@;
        assert(a[i]@ == b[i]@ && a[j]@ == b[j]@);
        assert(b[i]@[x]@ == b[j]@[y]@);
    }
    if shares_tag(b) {
        let (i, j, x, y) = choose|i: int, j: int, x: int, y: int|
            0 <= i < b.len() && 0 <= j < b.len() && i != j && 0 <= x < b[i]@.len() && 0 <= y < b[j]@.len()
                && #[trigger] b[i]@[x]@ == #[trigger] b[j]@[y]@;
        assert(a[i]@ == b[i]@ && a[j]@ == b[j]@);
        assert(a[i]@[x]@ == a[j]@[y]@);
    }
    if a.len() > 0 {
        lemma_tags_by_view(a.drop_last(), b.drop_last());
        assert(a.last()@ == b.last()@);
    }
}

/// Neighbour lists with the same ids link the same nodes.
proof fn lemma_linked_by_view(ids: Seq<u128>, a: Seq<Vec<u128>>, b: Seq<Vec<u128>>)
    requires
        a.len() == b.len(),
        ids.len() == a.len(),
        forall|i: int| 0 <= i < a.len() ==> (#[trigger] a[i])@ == b[i]@,
    ensures
        linked_pair(ids, a) == linked_pair(ids, b),
{
    if linked_pair(ids, a) {
        let (i, j) = choose|i: int, j: int| 0 <= i < j < ids.len() && #[trigger] a[i]@.contains(#[trigger] ids[j]);
        assert(a[i]@ == b[i]@);
        assert(b[i]@.contains(ids[j]));
    }
    if linked_pair(ids, b) {
        let (i, j) = choose|i: int, j: int| 0 <= i < j < ids.len() && #[trigger] b[i]@.contains(#[trigger] ids[j]);
        assert(a[i]@ == b[i]@);
        assert(a[i]@.contains(ids[j]));
    }
}

/// Reports one cluster (indices into `nodes`) when its nodes share no tag
/// and no graph link.
pub fn cluster_report(nodes: &Vec<ClusterNode>, cluster: &Vec<usize>) -> (r: Option<ClusterReport>)
    requires
        forall|m: int| 0 <= m < cluster@.len() ==> #[trigger] cluster@[m] < nodes@.len(),
    ensures
        r is None <==> !is_unlinked(members(nodes@, cluster@)),
        r matches Some(rep) ==> report_fits(members(nodes@, cluster@), rep),
{
    let ghost ms = members(nodes@, cluster@);
    let mut ids: Vec<u128> = Vec::new();
    let mut neighbors: Vec<Vec<u128>> = Vec::new();
    let mut tags: Vec<Vec<String>> = Vec::new();
    let mut titles: Vec<Option<String>> = Vec::new();
    let mut k: usize = 0;
    while k < cluster.len()
        invariant
            k <= cluster@.len(),
            ms == members(nodes@, cluster@),
            forall|m: int| 0 <= m < cluster@.len() ==> #[trigger] cluster@[m] < nodes@.len(),
            ids@ == member_ids(ms.take(k as int)),
            titles@ == member_titles(ms.take(k as int)),
            tags@.len() == k && neighbors@.len() == k,
            forall|j: int| 0 <= j < k ==> (#[trigger] tags@[j])@ == ms[j].tags@,
            forall|j: int| 0 <= j < k ==> (#[trigger] neighbors@[j])@ == ms[j].graph_neighbors@,
        decreases cluster.len() - k,
    {
        let n = &nodes[cluster[k]];
        assert(*n == ms[k as int]);
        let t = n.tags.clone();
        let g = n.graph_neighbors.clone();
        assert(t@ =~= n.tags@);
        assert(g@ =~= n.graph_neighbors@);
        ids.push(n.id);
        titles.push(n.title.clone());
        tags.push(t);
        neighbors.push(g);
        proof {
            assert(ms.take(k + 1) =~= ms.take(k as int).push(ms[k as int]));
            assert(member_ids(ms.take(k + 1)) =~= member_ids(ms.take(k as int)).push(ms[k as int].id));
            assert(member_titles(ms.take(k + 1)) =~= member_titles(ms.take(k as int)).push(ms[k as int].title));
        }
        k += 1;
    }
    proof {
        assert(ms.take(ms.len() as int) =~= ms);
        lemma_tags_by_view(tags@, member_tags(ms));
        lemma_linked_by_view(ids@, neighbors@, member_neighbors(ms));
    }
    match unlinked_cluster_insight(&tags, &titles, any_linked(&ids, &neighbors)) {
        Some(insight) => Some(ClusterReport { insight, related_nodes: ids }),
        None => None,
    }
}

/// The reports, in order, of the clusters (indices into `nodes`) whose
/// nodes share no tag and no graph link.
pub fn unlinked_cluster_reports(nodes: &Vec<ClusterNode>, clusters: &Vec<Vec<usize>>) -> (out: Vec<ClusterReport>)
    requires
        clusters_within(clusters@, nodes@.len()),
    ensures
        reports_fit(nodes@, clusters@, out@),
{
    let mut out: Vec<ClusterReport> = Vec::new();
    let mut k: usize = 0;
    proof { assert(clusters@.take(0) =~= Seq::<Vec<usize>>::empty()); }
    while k < clusters.len()
        invariant
            k <= clusters@.len(),
            clusters_within(clusters@, nodes@.len()),
            reports_fit(nodes@, clusters@.take(k as int), out@),
        decreases clusters.len() - k,
    {
        let ghost before = clusters@.take(k as int);
        let ghost after = clusters@.take(k + 1);
        proof {
            assert(after.drop_last() =~= before);
            assert(after.last() == clusters@[k as int]);
            lemma_unlinked_positions_bound(nodes@, before);
            assert forall|m: int| 0 <= m < clusters@[k as int]@.len() implies #[trigger] clusters@[k as int]@[m] < nodes@.len() by {
                assert(clusters@[k as int]@[m] < nodes@.len());
            }
        }
        let r = cluster_report(nodes, &clusters[k]);
        proof {
            let pos = unlinked_positions(nodes@, before);
            assert forall|j: int| 0 <= j < pos.len() implies after[pos[j]] == #[trigger] before[pos[j]] by {}
        }
        match r {
            Some(rep) => {
                let ghost old_out = out@;
                out.push(rep);
                proof {
                    let pos = unlinked_positions(nodes@, before);
                    assert(unlinked_positions(nodes@, after) == pos.push(k as int));
                    assert forall|j: int| 0 <= j < out@.len() implies
                        report_fits(members(nodes@, after[unlinked_positions(nodes@, after)[j]]@), #[trigger] out@[j]) by {
                        if j < old_out.len() {
                            assert(out@[j] == old_out[j]);
                            assert(unlinked_positions(nodes@, after)[j] == pos[j]);
                        }
                    }
                }
            },
            None => {
                proof {
                    assert(unlinked_positions(nodes@, after) == unlinked_positions(nodes@, before));
                }
            },
        }
        k += 1;
    }
    proof { assert(clusters@.take(clusters@.len() as int) =~= clusters@); }
    out
}


/// Whether `clusters` is a density clustering of the points whose
/// neighbour lists are `nb`, with everything `dbscan` promises of its
/// result.
pub open spec fn is_density_clustering(nb: Seq<Vec<usize>>, min_points: usize, clusters: Seq<Vec<usize>>) -> bool {
    &&& forall|q: int| 0 <= q < nb.len() ==> (clustered(clusters, q) <==> reachable(nb, min_points, q))
    &&& clusters_within(clusters, nb.len())
    &&& forall|k: int| 0 <= k < clusters.len() ==> #[trigger] clusters[k]@.len() > 0
    &&& forall|k: int, a: int, b: int| 0 <= k < clusters.len() && 0 <= a < b < clusters[k]@.len()
        ==> #[trigger] clusters[k]@[a] < #[trigger] clusters[k]@[b]
    &&& forall|k1: int, k2: int, q: usize| 0 <= k1 < clusters.len() && 0 <= k2 < clusters.len()
        && #[trigger] clusters[k1]@.contains(q) && #[trigger] clusters[k2]@.contains(q) ==> k1 == k2
    &&& forall|k: int, x: usize, y: usize| 0 <= k < clusters.len() && #[trigger] clusters[k]@.contains(x) && #[trigger] clusters[k]@.contains(y)
        ==> density_connected(nb, min_points, x as int, y as int)
    &&& neighbour_lists_symmetric(nb) ==> forall|c: usize, d: usize, k1: int, k2: int|
        0 <= k1 < clusters.len() && 0 <= k2 < clusters.len() && #[trigger] clusters[k1]@.contains(c) && #[trigger] clusters[k2]@.contains(d)
            && is_core(nb, min_points, c as int) && is_core(nb, min_points, d as int) && nb[c as int]@.contains(d) ==> k1 == k2
    &&& forall|k1: int, k2: int, q: usize, c: usize| 0 <= k1 < clusters.len() && 0 <= k2 < clusters.len()
        && #[trigger] clusters[k1]@.contains(q) && #[trigger] clusters[k2]@.contains(c)
        && is_core(nb, min_points, c as int) && nb[c as int]@.contains(q) ==> k1 <= k2
    &&& forall|k1: int, k2: int, d: usize| #![trigger clusters[k1], clusters[k2]@.contains(d)]
        0 <= k1 < k2 < clusters.len() && clusters[k2]@.contains(d) && is_core(nb, min_points, d as int)
        ==> has_core_below(nb, min_points, clusters[k1]@, d)
}

/// Detects the unlinked clusters among `nodes`, given each node's
/// neighbour list (the nodes within the similarity threshold of its
/// embedding, one list per embedding): none when there are fewer nodes
/// than `min_points` or the lists do not match the nodes one for one; else
/// the density clusters of the lists whose nodes share no tag and no graph
/// link, reported in the order the clusters were found.
pub fn unlinked_clusters(nodes: &Vec<ClusterNode>, neighbors: &Vec<Vec<usize>>, min_points: usize) -> (out: Vec<ClusterReport>)
    requires
        neighbour_lists_closed(neighbors@),
    ensures
        nodes@.len() < min_points || neighbors@.len() != nodes@.len() ==> out@.len() == 0,
        !(nodes@.len() < min_points || neighbors@.len() != nodes@.len()) ==> exists|cl: Seq<Vec<usize>>|
            is_density_clustering(neighbors@, min_points, cl) && #[trigger] reports_fit(nodes@, cl, out@),
{
    if nodes.len() < min_points || neighbors.len() != nodes.len() {
        return Vec::new();
    }
    let clusters = dbscan(neighbors, min_points);
    assert(is_density_clustering(neighbors@, min_points, clusters@));
    unlinked_cluster_reports(nodes, &clusters)
}

/// The order of text: equal, or lexicographically before.
pub open spec fn text_le(a: Seq<char>, b: Seq<char>) -> bool {
    a == b || seq_lt(a, b)
}

/// Text order is a total order.
pub proof fn lemma_text_le_total()
    ensures
        total_ordering(|a: Seq<char>, b: Seq<char>| text_le(a, b)),
{
    let le = |a: Seq<char>, b: Seq<char>| text_le(a, b);
    assert forall|a: Seq<char>, b: Seq<char>| #[trigger] le(a, b) && #[trigger] le(b, a) implies a == b by {
        lemma_seq_lt_total(a, b);
    }
    assert forall|a: Seq<char>, b: Seq<char>, c: Seq<char>| #[trigger] le(a, b) && #[trigger] le(b, c) implies le(a, c) by {
        if seq_lt(a, b) && seq_lt(b, c) {
            lemma_seq_lt_trans(a, b, c);
        }
    }
    assert forall|a: Seq<char>, b: Seq<char>| #[trigger] le(a, b) || #[trigger] le(b, a) by {
        lemma_seq_lt_total(a, b);
    }
}

/// `ids` in ascending text order.
pub open spec fn sorted_texts(ids: Seq<Seq<char>>) -> Seq<Seq<char>> {
    ids.sort_by(|a: Seq<char>, b: Seq<char>| text_le(a, b))
}

/// The signature by which insights are deduplicated: its type, title and
/// content, and its related node ids in ascending order, joined by `|` (the
/// ids by `,`).
pub open spec fn signature_text(kind: Seq<char>, title: Seq<char>, content: Seq<char>, ids: Seq<Seq<char>>) -> Seq<char> {
    kind + "|"@ + title + "|"@ + content + "|"@ + join_with(sorted_texts(ids), ","@)
}

/// `items` in ascending text order.
pub fn sort_texts(items: &Vec<String>) -> (out: Vec<String>)
    ensures
        strings_view(out@) == sorted_texts(strings_view(items@)),
{
    let ghost le = |a: Seq<char>, b: Seq<char>| text_le(a, b);
    let ghost sv = strings_view(items@);
    let mut acc: Vec<String> = Vec::new();
    let mut i: usize = 0;
    proof {
        lemma_text_le_total();
        assert(strings_view(acc@) =~= sv.take(0));
    }
    while i < items.len()
        invariant
            i <= items@.len(),
            sv == strings_view(items@),
            le == (|a: Seq<char>, b: Seq<char>| text_le(a, b)),
            total_ordering(le),
            sorted_by(strings_view(acc@), le),
            strings_view(acc@).to_multiset() == sv.take(i as int).to_multiset(),
        decreases items.len() - i,
    {
        let item = chars_of(items[i].as_str());
        let mut p: usize = 0;
        while p < acc.len() && !seq_lt_vec(item.as_slice(), chars_of(acc[p].as_str()).as_slice())
            invariant
                p <= acc@.len(),
                item@ == items@[i as int]@,
                forall|q: int| 0 <= q < p ==> text_le(#[trigger] acc@[q]@, item@),
            decreases acc.len() - p,
        {
            proof { lemma_seq_lt_total(acc@[p as int]@, item@); }
            p += 1;
        }
        let ghost before = acc@;
        acc.insert(p, items[i].clone());
        proof {
            let bv = strings_view(before);
            assert(strings_view(acc@) =~= bv.insert(p as int, item@));
            to_multiset_insert(bv, p as int, item@);
            assert(sv.take(i + 1) =~= sv.take(i as int).push(item@));
            to_multiset_build(sv.take(i as int), item@);
            if p < before.len() {
                assert(seq_lt(item@, before[p as int]@));
                assert(le(item@, bv[p as int]));
            }
            assert forall|a: int, b: int| 0 <= a < b < acc@.len() implies le(#[trigger] strings_view(acc@)[a], #[trigger] strings_view(acc@)[b]) by {
                let av = strings_view(acc@);
                if b < p {
                    assert(le(bv[a], bv[b]));
                } else if b == p {
                    assert(text_le(before[a]@, item@));
                } else if a == p {
                    if p < b - 1 {
                        assert(le(bv[p as int], bv[b - 1]));
                    }
                } else if a < p {
                    assert(le(bv[a], bv[b - 1]));
                } else {
                    assert(le(bv[a - 1], bv[b - 1]));
                }
            }
        }
        i += 1;
    }
    proof {
        assert(sv.take(items@.len() as int) =~= sv);
        sv.lemma_sort_by_ensures(le);
        lemma_sorted_unique(strings_view(acc@), sv.sort_by(le), le);
    }
    acc
}

/// The deduplication signature of an insight with this type, title,
/// content and related node ids.
pub fn insight_signature(kind: &str, title: &str, content: &str, related_ids: &Vec<String>) -> (sig: String)
    ensures
        sig@ == signature_text(kind@, title@, content@, strings_view(related_ids@)),
{
    let ids = sort_texts(related_ids);
    let joined = join_strings(&ids, ",");
    let a = concat_str(kind, "|");
    let b = concat_str(a.as_str(), title);
    let c = concat_str(b.as_str(), "|");
    let d = concat_str(c.as_str(), content);
    let e = concat_str(d.as_str(), "|");
    concat_str(e.as_str(), joined.as_str())
}


/// The signature of an insight does not depend on the order in which its
/// related node ids are listed.
pub proof fn lemma_signature_ignores_id_order(kind: Seq<char>, title: Seq<char>, content: Seq<char>, a: Seq<Seq<char>>, b: Seq<Seq<char>>)
    requires
        a.to_multiset() == b.to_multiset(),
    ensures
        signature_text(kind, title, content, a) == signature_text(kind, title, content, b),
{
    let le = |x: Seq<char>, y: Seq<char>| text_le(x, y);
    lemma_text_le_total();
    a.lemma_sort_by_ensures(le);
    b.lemma_sort_by_ensures(le);
    lemma_sorted_unique(a.sort_by(le), b.sort_by(le), le);
}

/// Whether no stored insight that was not dismissed has signature `s`.
pub open spec fn signature_free(existing: Seq<(String, bool)>, s: Seq<char>) -> bool {
    forall|k: int| 0 <= k < existing.len() && (#[trigger] existing[k]).0@ == s ==> existing[k].1
}

/// Whether some candidate up to `i` with the signature of candidate `i` is
/// persisted.
pub open spec fn first_copy_kept(existing: Seq<(String, bool)>, candidates: Seq<String>, i: int) -> bool {
    exists|j: int| 0 <= j <= i && (#[trigger] candidates[j])@ == candidates[i]@ && is_fresh(existing, candidates, j)
}

proof fn lemma_first_same_signature(candidates: Seq<String>, i: int)
    requires
        0 <= i < candidates.len(),
    ensures
        exists|j: int| 0 <= j <= i && (#[trigger] candidates[j])@ == candidates[i]@
            && forall|m: int| 0 <= m < j ==> (#[trigger] candidates[m])@ != candidates[i]@,
    decreases i,
{
    if exists|m: int| 0 <= m < i && (#[trigger] candidates[m])@ == candidates[i]@ {
        let m = choose|m: int| 0 <= m < i && (#[trigger] candidates[m])@ == candidates[i]@;
        lemma_first_same_signature(candidates, m);
        let j = choose|j: int| 0 <= j <= m && (#[trigger] candidates[j])@ == candidates[m]@
            && forall|q: int| 0 <= q < j ==> (#[trigger] candidates[q])@ != candidates[m]@;
        assert(candidates[j]@ == candidates[i]@);
    } else {
        assert(candidates[i]@ == candidates[i]@);
    }
}

/// Which candidate insights are persisted: never two with the same
/// signature, never one whose signature a stored insight that was not
/// dismissed already has; and of every signature no stored live insight
/// has, the first candidate carrying it is persisted.
pub proof fn lemma_fresh_insights_once(existing: Seq<(String, bool)>, candidates: Seq<String>)
    ensures
        forall|i: int, j: int| 0 <= i < j < candidates.len() && #[trigger] is_fresh(existing, candidates, i)
            && #[trigger] is_fresh(existing, candidates, j) ==> candidates[i]@ != candidates[j]@,
        forall|i: int, k: int| 0 <= i < candidates.len() && 0 <= k < existing.len() && #[trigger] is_fresh(existing, candidates, i)
            && (#[trigger] existing[k]).0@ == candidates[i]@ ==> existing[k].1,
        forall|i: int| 0 <= i < candidates.len() && signature_free(existing, (#[trigger] candidates[i])@)
            ==> first_copy_kept(existing, candidates, i),
{
    assert forall|i: int| 0 <= i < candidates.len() && signature_free(existing, (#[trigger] candidates[i])@)
        implies first_copy_kept(existing, candidates, i) by {
        lemma_first_same_signature(candidates, i);
        let j = choose|j: int| 0 <= j <= i && (#[trigger] candidates[j])@ == candidates[i]@
            && forall|m: int| 0 <= m < j ==> (#[trigger] candidates[m])@ != candidates[i]@;
        assert(is_fresh(existing, candidates, j));
    }
}

/// The examples an unlinked-cluster insight names are the titles among
/// its first three nodes, in order and joined with `, `, or `untitled
/// nodes` when none of those three has a title; a node without a title is
/// left out, and a fourth node is never named.
pub proof fn lemma_examples_from_first_three(titles: Seq<Option<String>>)
    ensures
        ({
            let first = titles.take(if titles.len() < 3 { titles.len() as int } else { 3 });
            &&& titled(first).len() == 0 ==> examples_text(titles) == seq!['u', 'n', 't', 'i', 't', 'l', 'e', 'd', ' ', 'n', 'o', 'd', 'e', 's']
            &&& titled(first).len() > 0 ==> examples_text(titles) == join_with(titled(first), seq![',', ' '])
            &&& titled(first).len() <= first.len()
            &&& forall|j: int| 0 <= j < titled(first).len() ==> title_among(first, #[trigger] titled(first)[j])
        }),
{
    reveal_strlit("untitled nodes");
    reveal_strlit(", ");
    assert("untitled nodes"@ =~= seq!['u', 'n', 't', 'i', 't', 'l', 'e', 'd', ' ', 'n', 'o', 'd', 'e', 's']);
    assert(", "@ =~= seq![',', ' ']);
    if titles.len() <= 3 {
        assert(titles.take(titles.len() as int) =~= titles);
    }
    let first = titles.take(if titles.len() < 3 { titles.len() as int } else { 3 });
    lemma_titled_members(first);
}

/// Whether some node among `ts` has title `t`.
pub open spec fn title_among(ts: Seq<Option<String>>, t: Seq<char>) -> bool {
    exists|i: int| 0 <= i < ts.len() && #[trigger] ts[i] is Some && (ts[i]->0)@ == t
}

proof fn lemma_titled_members(ts: Seq<Option<String>>)
    ensures
        titled(ts).len() <= ts.len(),
        forall|j: int| 0 <= j < titled(ts).len() ==> title_among(ts, #[trigger] titled(ts)[j]),
    decreases ts.len(),
{
    if ts.len() > 0 {
        let init = ts.drop_last();
        lemma_titled_members(init);
        assert forall|i: int| 0 <= i < init.len() implies #[trigger] init[i] == ts[i] by {}
        assert(ts[ts.len() - 1] == ts.last());
        let r = titled(init);
        assert forall|j: int| 0 <= j < titled(ts).len() implies title_among(ts, #[trigger] titled(ts)[j]) by {
            if j < r.len() {
                assert(titled(ts)[j] == r[j]);
                assert(title_among(init, r[j]));
                let i = choose|i: int| 0 <= i < init.len() && #[trigger] init[i] is Some && (init[i]->0)@ == r[j];
                assert(ts[i] == init[i]);
            } else {
                assert(ts[ts.len() - 1] is Some);
            }
        }
    }
}

} // verus!
