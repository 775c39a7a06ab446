//! Search helpers for the HNSW graph.

use vstd::prelude::*;

use crate::datasource::{DataSource, Distance};
use crate::hnsw::graph::Graph;
use crate::hnsw::node::{ids_distinct, lemma_distinct_bounded};
use crate::hnsw::order::{
    lemma_permutation_keeps_ids_distinct, neighbour_ids, sort_by_distance, sorted_by_distance,
};
use crate::hnsw::types::{ExtendedSearchContext, Neighbour, SearchContext};
use crate::hnsw::{HnswError, HnswParams};

verus! {

/// Enforces the index's numeric-validity rule on one reported distance: a
/// non-finite value is rejected as `InvalidParameters`, a finite one is
/// passed through unchanged.
pub fn check_finite(d: Distance) -> (r: Result<Distance, HnswError>)
    ensures
        r matches Ok(v) ==> v == d,
        r is Ok <==> d.finite,
        r matches Err(e) ==> e is InvalidParameters,
{
    if d.finite {
        Ok(d)
    } else {
        Err(
            HnswError::InvalidParameters {
                reason: "non-finite distance returned by the data source".to_owned(),
            },
        )
    }
}

/// Enforces the numeric-validity rule on a batch of reported distances: the
/// batch is returned unchanged exactly when every entry is finite.
pub fn check_finite_batch(ds: Vec<Distance>) -> (r: Result<Vec<Distance>, HnswError>)
    ensures
        r matches Ok(v) ==> v@ == ds@,
        r is Ok <==> (forall|i: int| 0 <= i < ds@.len() ==> (#[trigger] ds@[i]).finite),
        r matches Err(e) ==> e is InvalidParameters,
{
    let mut i: usize = 0;
    while i < ds.len()
        invariant
            i <= ds@.len(),
            forall|j: int| 0 <= j < i ==> (#[trigger] ds@[j]).finite,
        decreases ds@.len() - i,
    {
        if !ds[i].finite {
            return Err(
                HnswError::InvalidParameters {
                    reason: "non-finite distance returned by the data source".to_owned(),
                },
            );
        }
        i = i + 1;
    }
    Ok(ds)
}

/// Validates a single distance provided by the data source.
pub fn validate_distance<D: DataSource>(source: &D, query: usize, candidate: usize) -> (r: Result<
    Distance,
    HnswError,
>)
    ensures
        r matches Ok(d) ==> d.finite,
        r matches Err(e) ==> e is DataSource || e is InvalidParameters,
{
    match source.distance(query, candidate) {
        Ok(d) => check_finite(d),
        Err(e) => Err(HnswError::DataSource(e)),
    }
}

/// Validates a batch of distances provided by the data source: the batch
/// must hold exactly one finite distance per candidate. A batch of the
/// wrong length violates the data-source contract and is rejected as
/// `InvalidParameters`, like a non-finite distance.
pub fn validate_batch_distances<D: DataSource>(
    source: &D,
    query: usize,
    candidates: &[usize],
) -> (r: Result<Vec<Distance>, HnswError>)
    ensures
        r matches Ok(v) ==> v@.len() == candidates@.len() && (forall|i: int|
            0 <= i < v@.len() ==> (#[trigger] v@[i]).finite),
        r matches Err(e) ==> e is DataSource || e is InvalidParameters,
{
    match source.batch_distances(query, candidates) {
        Ok(ds) => {
            if ds.len() != candidates.len() {
                return Err(
                    HnswError::InvalidParameters {
                        reason: "batch distance count does not match the candidates".to_owned(),
                    },
                );
            }
            check_finite_batch(ds)
        },
        Err(e) => Err(HnswError::DataSource(e)),
    }
}

/// Every listed neighbour names a stored node and carries a finite distance.
pub open(crate) spec fn entries_ok(g: &Graph, s: Seq<Neighbour>) -> bool {
    forall|i: int|
        0 <= i < s.len() ==> (#[trigger] s[i]).distance.finite && g.has_node(s[i].id as int)
}

/// A well-formed result list: entries name stored nodes, distances are
/// finite, and no node is reported twice.
pub open(crate) spec fn results_wf(g: &Graph, s: Seq<Neighbour>) -> bool {
    entries_ok(g, s) && ids_distinct(neighbour_ids(s))
}

/// One node leads to another in at most `steps` hops along the edges of a
/// single layer.
pub open(crate) spec fn reaches(g: &Graph, level: int, from: usize, to: usize, steps: nat) -> bool
    decreases steps,
{
    if steps == 0 {
        from == to
    } else {
        reaches(g, level, from, to, (steps - 1) as nat) || exists|m: usize|
            reaches(g, level, from, m, (steps - 1) as nat) && g.layer(m as int, level).contains(to)
    }
}

/// The target can be reached from `from` along the layer's edges.
pub open(crate) spec fn reachable(g: &Graph, level: int, from: usize, to: usize) -> bool {
    exists|steps: nat| reaches(g, level, from, to, steps)
}

/// Extending a path by one edge keeps the endpoint reachable.
proof fn lemma_step_reachable(g: &Graph, level: int, from: usize, mid: usize, to: usize)
    requires
        reachable(g, level, from, mid),
        g.layer(mid as int, level).contains(to),
    ensures
        reachable(g, level, from, to),
{
    let s = choose|s: nat| reaches(g, level, from, mid, s);
    assert(reaches(g, level, from, to, s + 1));
}

/// Index of a neighbour with minimal distance.
fn min_index(v: &Vec<Neighbour>) -> (m: usize)
    requires
        v@.len() > 0,
    ensures
        m < v@.len(),
        forall|j: int| 0 <= j < v@.len() ==> v@[m as int].distance.key <= #[trigger] v@[j].distance.key,
{
    let mut m: usize = 0;
    let mut k: usize = 1;
    while k < v.len()
        invariant
            0 <= m < k <= v@.len(),
            v@.len() > 0,
            forall|j: int| 0 <= j < k ==> v@[m as int].distance.key <= #[trigger] v@[j].distance.key,
        decreases v@.len() - k,
    {
        if v[k].distance.key < v[m].distance.key {
            m = k;
        }
        k = k + 1;
    }
    m
}

/// Index of a neighbour with maximal distance.
fn max_index(v: &Vec<Neighbour>) -> (m: usize)
    requires
        v@.len() > 0,
    ensures
        m < v@.len(),
        forall|j: int| 0 <= j < v@.len() ==> v@[m as int].distance.key >= #[trigger] v@[j].distance.key,
{
    let mut m: usize = 0;
    let mut k: usize = 1;
    while k < v.len()
        invariant
            0 <= m < k <= v@.len(),
            v@.len() > 0,
            forall|j: int| 0 <= j < k ==> v@[m as int].distance.key >= #[trigger] v@[j].distance.key,
        decreases v@.len() - k,
    {
        if v[k].distance.key > v[m].distance.key {
            m = k;
        }
        k = k + 1;
    }
    m
}

/// Whether `v` holds `x`.
fn contains_id(v: &Vec<usize>, x: usize) -> (r: bool)
    ensures
        r == v@.contains(x),
{
    let mut k: usize = 0;
    while k < v.len()
        invariant
            k <= v@.len(),
            forall|j: int| 0 <= j < k ==> v@[j] != x,
        decreases v@.len() - k,
    {
        if v[k] == x {
            return true;
        }
        k = k + 1;
    }
    false
}

/// Removes one neighbour of maximal distance from a non-empty list.
fn remove_worst(best: &mut Vec<Neighbour>)
    requires
        old(best)@.len() > 0,
    ensures
        final(best)@.len() == old(best)@.len() - 1,
        forall|j: int| 0 <= j < final(best)@.len() ==> old(best)@.contains(#[trigger] final(best)@[j]),
        ids_distinct(neighbour_ids(old(best)@)) ==> ids_distinct(neighbour_ids(final(best)@)),
        forall|x: Neighbour| final(best)@.contains(x) ==> old(best)@.contains(x),
        exists|w: Neighbour|
            old(best)@.contains(w) && (forall|j: int|
                0 <= j < final(best)@.len() ==> (#[trigger] final(best)@[j]).distance.key
                    <= w.distance.key),
{
    let ghost pre = best@;
    let fm = max_index(best);
    let w = best.swap_remove(fm);
    proof {
        let post = best@;
        assert forall|j: int| 0 <= j < post.len() implies pre.contains(#[trigger] post[j]) by {
            if j == fm {
                assert(post[j] == pre.last());
            } else {
                assert(post[j] == pre[j]);
            }
        }
        if ids_distinct(neighbour_ids(pre)) {
            assert forall|a: int, b: int|
                0 <= a < b < post.len() implies neighbour_ids(post)[a] != neighbour_ids(
                post,
            )[b] by {
                let pa: int = if a == fm {
                    pre.len() - 1
                } else {
                    a
                };
                let pb: int = if b == fm {
                    pre.len() - 1
                } else {
                    b
                };
                assert(post[a] == pre[pa]);
                assert(post[b] == pre[pb]);
                assert(pa != pb);
                assert(neighbour_ids(post)[a] == post[a].id);
                assert(neighbour_ids(post)[b] == post[b].id);
                if pa < pb {
                    assert(neighbour_ids(pre)[pa] != neighbour_ids(pre)[pb]);
                } else {
                    assert(neighbour_ids(pre)[pb] != neighbour_ids(pre)[pa]);
                }
                assert(neighbour_ids(pre)[pa] == pre[pa].id);
                assert(neighbour_ids(pre)[pb] == pre[pb].id);
            }
        }
        assert(pre.contains(pre[fm as int]));
        assert forall|j: int|
            0 <= j < post.len() implies (#[trigger] post[j]).distance.key
                <= pre[fm as int].distance.key by {
            if j == fm {
                assert(post[j] == pre.last());
            } else {
                assert(post[j] == pre[j]);
            }
        }
    }
}

/// Performs a full HNSW search across all layers: a greedy descent through
/// the upper layers followed by a bounded best-first expansion at the base
/// layer, truncated to the `k` best matches.
///
/// An index without an entry point yields an empty result, never an error.
pub fn search<D: DataSource>(
    graph: &Graph,
    query: usize,
    k: usize,
    params: &HnswParams,
    source: &D,
) -> (r: Result<Vec<Neighbour>, HnswError>)
    requires
        graph.wf(),
        params.ef_construction >= 1,
    ensures
        graph.spec_entry() is None ==> (r matches Ok(v) && v@.len() == 0),
        r matches Ok(v) ==> v@.len() <= k && sorted_by_distance(v@) && results_wf(graph, v@),
        graph.spec_entry() is Some && k >= 1 && r is Ok ==> r->Ok_0@.len() >= 1,
        r matches Err(e) ==> e is DataSource || e is InvalidParameters,
{
    let entry = match graph.entry() {
        None => {
            return Ok(Vec::new());
        },
        Some(e) => e,
    };
    let mut current = entry.node;
    let mut current_dist = match validate_distance(source, query, current) {
        Ok(d) => d,
        Err(e) => {
            return Err(e);
        },
    };
    let mut level = entry.level;
    while level > 0
        invariant
            graph.wf(),
            graph.has_node(current as int),
        decreases level, current_dist.key,
    {
        let ghost dist0 = current_dist;
        let node = match graph.node(current) {
            Some(n) => n,
            None => {
                return Err(
                    HnswError::GraphInvariantViolation {
                        message: "node missing during descent".to_owned(),
                    },
                );
            },
        };
        let neighbours = node.neighbours(level);
        if neighbours.len() == 0 {
            level = level - 1;
            continue ;
        }
        proof {
            assert(graph.node_wf(current as int));
            assert(neighbours@ == graph.layer(current as int, level as int));
            assert(graph.list_wf(current as int, level as int));
        }
        let dists = match validate_batch_distances(source, query, neighbours) {
            Ok(d) => d,
            Err(e) => {
                return Err(e);
            },
        };
        let mut best_c = current;
        let mut best_d = current_dist;
        let mut improved = false;
        let mut i: usize = 0;
        while i < neighbours.len() && i < dists.len()
            invariant
                graph.wf(),
                neighbours@ == graph.layer(current as int, level as int),
                graph.list_wf(current as int, level as int),
                i <= neighbours@.len(),
                graph.has_node(current as int),
                graph.has_node(best_c as int),
                !improved ==> best_c == current && best_d == current_dist,
                improved ==> best_d.key < current_dist.key,
            decreases neighbours@.len() - i,
        {
            let candidate = neighbours[i];
            let distance = dists[i];
            if distance.key < best_d.key {
                proof {
                    assert(graph.layer(current as int, level as int)[i as int] == candidate);
                }
                best_c = candidate;
                best_d = distance;
                improved = true;
            }
            i = i + 1;
        }
        if improved {
            current = best_c;
            current_dist = best_d;
        } else {
            level = level - 1;
        }
    }
    let base = SearchContext { query, entry: current, level: 0 };
    let mut results = match graph.search_layer(source, base.with_ef(params.ef_construction())) {
        Ok(r) => r,
        Err(e) => {
            return Err(e);
        },
    };
    let ghost full = results@;
    results.truncate(k);
    proof {
        if k < full.len() {
            assert(results@ == full.subrange(0, k as int));
        }
        assert forall|a: int, b: int|
            0 <= a < b < results@.len() implies neighbour_ids(results@)[a] != neighbour_ids(
            results@,
        )[b] by {
            assert(results@[a] == full[a]);
            assert(results@[b] == full[b]);
            assert(neighbour_ids(full)[a] != neighbour_ids(full)[b]);
        }
    }
    Ok(results)
}

impl Graph {
    /// Searches a single layer using best-first exploration bounded by the
    /// search width `ctx.ef`: the result holds between 1 and `ctx.ef`
    /// distinct stored nodes, sorted ascending by distance, each reachable
    /// from the entry node along the searched layer's edges.
    pub(crate) fn search_layer<D: DataSource>(&self, source: &D, ctx: ExtendedSearchContext) -> (r:
        Result<Vec<Neighbour>, HnswError>)
        requires
            self.wf(),
            self.has_node(ctx.base.entry as int),
            ctx.ef >= 1,
        ensures
            r matches Ok(v) ==> 1 <= v@.len() <= ctx.ef && sorted_by_distance(v@) && results_wf(
                self,
                v@,
            ) && (forall|j: int|
                0 <= j < v@.len() ==> reachable(
                    self,
                    ctx.base.level as int,
                    ctx.base.entry,
                    (#[trigger] v@[j]).id,
                )),
            r matches Err(e) ==> e is DataSource || e is InvalidParameters,
    {
        let entry_dist = match validate_distance(source, ctx.base.query, ctx.base.entry) {
            Ok(d) => d,
            Err(e) => {
                return Err(e);
            },
        };
        let mut visited: Vec<usize> = Vec::new();
        visited.push(ctx.base.entry);
        let mut candidates: Vec<Neighbour> = Vec::new();
        candidates.push(Neighbour { id: ctx.base.entry, distance: entry_dist });
        let mut best: Vec<Neighbour> = Vec::new();
        best.push(Neighbour { id: ctx.base.entry, distance: entry_dist });
        proof {
            assert(visited@.len() == 1 && visited@[0] == ctx.base.entry);
            lemma_distinct_bounded(visited@, self.table_len());
            assert(visited@.contains(ctx.base.entry));
            assert(best@.len() == 1 && best@[0].id == ctx.base.entry);
            assert(reaches(self, ctx.base.level as int, ctx.base.entry, ctx.base.entry, 0));
            assert(reachable(self, ctx.base.level as int, ctx.base.entry, ctx.base.entry));
        }
        while candidates.len() > 0
            invariant
                self.wf(),
                ctx.ef >= 1,
                ids_distinct(visited@),
                forall|j: int| 0 <= j < visited@.len() ==> self.has_node(#[trigger] visited@[j] as int),
                visited@.len() <= self.table_len(),
                entries_ok(self, candidates@),
                entries_ok(self, best@),
                1 <= best@.len() <= ctx.ef,
                ids_distinct(neighbour_ids(best@)),
                forall|j: int| 0 <= j < best@.len() ==> visited@.contains(#[trigger] best@[j].id),
                forall|j: int|
                    0 <= j < visited@.len() ==> reachable(
                        self,
                        ctx.base.level as int,
                        ctx.base.entry,
                        #[trigger] visited@[j],
                    ),
                forall|j: int|
                    0 <= j < candidates@.len() ==> reachable(
                        self,
                        ctx.base.level as int,
                        ctx.base.entry,
                        (#[trigger] candidates@[j]).id,
                    ),
            decreases candidates@.len() + self.table_len() - visited@.len(),
        {
            let ghost measure0 = candidates@.len() + self.table_len() - visited@.len();
            let ghost cpre = candidates@;
            let m = min_index(&candidates);
            let inner = candidates.swap_remove(m);
            proof {
                assert forall|j: int|
                    0 <= j < candidates@.len() implies (#[trigger] candidates@[j]).distance.finite
                        && self.has_node(candidates@[j].id as int) by {
                    if j == m {
                        assert(candidates@[j] == cpre.last());
                    } else {
                        assert(candidates@[j] == cpre[j]);
                    }
                }
                assert forall|j: int| 0 <= j < candidates@.len() implies reachable(
                    self,
                    ctx.base.level as int,
                    ctx.base.entry,
                    (#[trigger] candidates@[j]).id,
                ) by {
                    if j == m {
                        assert(candidates@[j] == cpre.last());
                    } else {
                        assert(candidates@[j] == cpre[j]);
                    }
                }
                assert(inner == cpre[m as int]);
                assert(reachable(self, ctx.base.level as int, ctx.base.entry, inner.id));
            }
            if best.len() >= ctx.ef {
                let fm = max_index(&best);
                if inner.distance.key > best[fm].distance.key {
                    break ;
                }
            }
            let node = match self.node(inner.id) {
                Some(n) => n,
                None => {
                    return Err(
                        HnswError::GraphInvariantViolation {
                            message: "node missing during layer search".to_owned(),
                        },
                    );
                },
            };
            let neighbours = node.neighbours(ctx.base.level);
            proof {
                if neighbours@.len() > 0 {
                    assert(self.node_wf(inner.id as int));
                    assert(self.list_wf(inner.id as int, ctx.base.level as int));
                }
            }
            let ghost visited0 = visited@;
            let mut fresh: Vec<usize> = Vec::new();
            let mut i: usize = 0;
            while i < neighbours.len()
                invariant
                    self.wf(),
                    i <= neighbours@.len(),
                    neighbours@ == self.layer(inner.id as int, ctx.base.level as int),
                    neighbours@.len() > 0 ==> self.list_wf(inner.id as int, ctx.base.level as int),
                    ids_distinct(visited@),
                    forall|j: int|
                        0 <= j < visited@.len() ==> self.has_node(#[trigger] visited@[j] as int),
                    visited@.len() <= self.table_len(),
                    visited@.len() == visited0.len() + fresh@.len(),
                    forall|j: int| 0 <= j < visited0.len() ==> visited@[j] == visited0[j],
                    ids_distinct(fresh@),
                    forall|j: int| 0 <= j < fresh@.len() ==> self.has_node(#[trigger] fresh@[j] as int),
                    forall|j: int|
                        0 <= j < fresh@.len() ==> !neighbour_ids(best@).contains(
                            #[trigger] fresh@[j],
                        ),
                    forall|j: int| 0 <= j < fresh@.len() ==> visited@.contains(#[trigger] fresh@[j]),
                    entries_ok(self, best@),
                    1 <= best@.len() <= ctx.ef,
                    ids_distinct(neighbour_ids(best@)),
                    forall|j: int| 0 <= j < best@.len() ==> visited0.contains(#[trigger] best@[j].id),
                    reachable(self, ctx.base.level as int, ctx.base.entry, inner.id),
                    forall|j: int|
                        0 <= j < visited@.len() ==> reachable(
                            self,
                            ctx.base.level as int,
                            ctx.base.entry,
                            #[trigger] visited@[j],
                        ),
                decreases neighbours@.len() - i,
            {
                let nb = neighbours[i];
                if !contains_id(&visited, nb) {
                    proof {
                        assert(self.list_wf(inner.id as int, ctx.base.level as int));
                        assert(self.has_node(nb as int));
                        assert(nb < self.table_len());
                    }
                    let ghost visited_before = visited@;
                    let ghost fresh_before = fresh@;
                    visited.push(nb);
                    fresh.push(nb);
                    proof {
                        assert forall|j: int|
                            0 <= j < fresh@.len() implies visited@.contains(#[trigger] fresh@[j]) by {
                            if j < fresh_before.len() {
                                assert(fresh@[j] == fresh_before[j]);
                                let w = choose|w: int|
                                    0 <= w < visited_before.len() && visited_before[w]
                                        == fresh_before[j];
                                assert(visited@[w] == fresh@[j]);
                            } else {
                                assert(visited@[visited_before.len() as int] == nb);
                            }
                        }
                        assert forall|j: int|
                            0 <= j < visited@.len() implies self.has_node(
                            #[trigger] visited@[j] as int,
                        ) by {
                            if j < visited_before.len() {
                                assert(visited@[j] == visited_before[j]);
                            }
                        }
                        assert(neighbours@.contains(nb));
                        lemma_step_reachable(
                            self,
                            ctx.base.level as int,
                            ctx.base.entry,
                            inner.id,
                            nb,
                        );
                        assert forall|j: int| 0 <= j < visited@.len() implies reachable(
                            self,
                            ctx.base.level as int,
                            ctx.base.entry,
                            #[trigger] visited@[j],
                        ) by {
                            if j < visited_before.len() {
                                assert(visited@[j] == visited_before[j]);
                            } else {
                                assert(visited@[j] == nb);
                            }
                        }
                        assert forall|a: int| 0 <= a < visited@.len() implies visited@[a]
                            < self.table_len() by {
                            assert(self.has_node(visited@[a] as int));
                        }
                        lemma_distinct_bounded(visited@, self.table_len());
                        assert forall|j: int|
                            0 <= j < fresh@.len() implies !neighbour_ids(best@).contains(
                            #[trigger] fresh@[j],
                        ) by {
                            if fresh@[j] == nb {
                                if neighbour_ids(best@).contains(nb) {
                                    let w = choose|w: int|
                                        0 <= w < best@.len() && neighbour_ids(best@)[w] == nb;
                                    assert(visited0.contains(best@[w].id));
                                    assert(visited_before.contains(nb));
                                }
                            }
                        }
                    }
                }
                i = i + 1;
            }
            if fresh.len() == 0 {
                continue ;
            }
            let dists = match validate_batch_distances(source, ctx.base.query, fresh.as_slice()) {
                Ok(d) => d,
                Err(e) => {
                    return Err(e);
                },
            };
            let ghost candidates0 = candidates@;
            let mut i: usize = 0;
            while i < fresh.len() && i < dists.len()
                invariant
                    self.wf(),
                    ctx.ef >= 1,
                    i <= fresh@.len(),
                    forall|j: int| 0 <= j < dists@.len() ==> (#[trigger] dists@[j]).finite,
                    ids_distinct(fresh@),
                    forall|j: int| 0 <= j < fresh@.len() ==> self.has_node(#[trigger] fresh@[j] as int),
                    forall|j: int| 0 <= j < fresh@.len() ==> visited@.contains(#[trigger] fresh@[j]),
                    forall|j: int|
                        i <= j < fresh@.len() ==> !neighbour_ids(best@).contains(
                            #[trigger] fresh@[j],
                        ),
                    entries_ok(self, candidates@),
                    candidates@.len() <= candidates0.len() + i,
                    entries_ok(self, best@),
                    1 <= best@.len() <= ctx.ef,
                    ids_distinct(neighbour_ids(best@)),
                    forall|j: int| 0 <= j < best@.len() ==> visited@.contains(#[trigger] best@[j].id),
                    forall|j: int|
                        0 <= j < visited@.len() ==> reachable(
                            self,
                            ctx.base.level as int,
                            ctx.base.entry,
                            #[trigger] visited@[j],
                        ),
                    forall|j: int|
                        0 <= j < candidates@.len() ==> reachable(
                            self,
                            ctx.base.level as int,
                            ctx.base.entry,
                            (#[trigger] candidates@[j]).id,
                        ),
                decreases fresh@.len() - i,
            {
                let cand = fresh[i];
                let dist = dists[i];
                let should_add = if best.len() < ctx.ef {
                    true
                } else {
                    let fm = max_index(&best);
                    dist.key < best[fm].distance.key
                };
                if should_add {
                    proof {
                        assert(dists@[i as int].finite);
                        assert(visited@.contains(fresh@[i as int]));
                        let w = choose|w: int|
                            0 <= w < visited@.len() && visited@[w] == fresh@[i as int];
                        assert(reachable(self, ctx.base.level as int, ctx.base.entry, cand));
                    }
                    let ghost cands_before = candidates@;
                    candidates.push(Neighbour { id: cand, distance: dist });
                    proof {
                        assert forall|j: int| 0 <= j < candidates@.len() implies reachable(
                            self,
                            ctx.base.level as int,
                            ctx.base.entry,
                            (#[trigger] candidates@[j]).id,
                        ) by {
                            if j < cands_before.len() {
                                assert(candidates@[j] == cands_before[j]);
                            } else {
                                assert(candidates@[j].id == cand);
                            }
                        }
                    }
                    let ghost best_before = best@;
                    best.push(Neighbour { id: cand, distance: dist });
                    let ghost best_pushed = best@;
                    proof {
                        assert forall|a: int, b: int|
                            0 <= a < b < best@.len() implies neighbour_ids(best@)[a]
                            != neighbour_ids(best@)[b] by {
                            if b == best@.len() - 1 {
                                assert(best@[b].id == cand);
                                assert(best@[a] == best_before[a]);
                                if best_before[a].id == cand {
                                    assert(neighbour_ids(best_before)[a] == cand);
                                    assert(neighbour_ids(best_before).contains(cand));
                                }
                            } else {
                                assert(best@[a] == best_before[a]);
                                assert(best@[b] == best_before[b]);
                                assert(neighbour_ids(best_before)[a] != neighbour_ids(
                                    best_before,
                                )[b]);
                            }
                        }
                    }
                    if best.len() > ctx.ef {
                        let ghost best_full = best@;
                        remove_worst(&mut best);
                        proof {
                            assert forall|j: int|
                                0 <= j < best@.len() implies visited@.contains(
                                #[trigger] best@[j].id,
                            ) by {
                                assert(best_full.contains(best@[j]));
                                let w = choose|w: int|
                                    0 <= w < best_full.len() && best_full[w] == best@[j];
                                assert(visited@.contains(best_full[w].id));
                            }
                            assert forall|j: int|
                                0 <= j < best@.len() implies (#[trigger] best@[j]).distance.finite
                                    && self.has_node(best@[j].id as int) by {
                                assert(best_full.contains(best@[j]));
                                let w = choose|w: int|
                                    0 <= w < best_full.len() && best_full[w] == best@[j];
                            }
                        }
                    }
                    proof {
                        assert forall|x: Neighbour| best@.contains(x) implies best_pushed.contains(
                            x,
                        ) by {}
                        assert forall|j: int|
                            i + 1 <= j < fresh@.len() implies !neighbour_ids(best@).contains(
                            #[trigger] fresh@[j],
                        ) by {
                            if neighbour_ids(best@).contains(fresh@[j]) {
                                let w = choose|w: int|
                                    0 <= w < best@.len() && neighbour_ids(best@)[w] == fresh@[j];
                                assert(best@[w].id == fresh@[j]);
                                assert(best@.contains(best@[w]));
                                assert(best_pushed.contains(best@[w]));
                                let v = choose|v: int|
                                    0 <= v < best_pushed.len() && best_pushed[v] == best@[w];
                                if v == best_pushed.len() - 1 {
                                    assert(best_pushed[v].id == cand);
                                    assert(fresh@[i as int] == cand);
                                } else {
                                    assert(best_pushed[v] == best_before[v]);
                                    assert(neighbour_ids(best_before)[v] == fresh@[j]);
                                    assert(neighbour_ids(best_before).contains(fresh@[j]));
                                }
                            }
                        }
                    }
                }
                i = i + 1;
            }
            proof {
                assert(candidates@.len() + self.table_len() - visited@.len() < measure0);
            }
        }
        let ghost unsorted = best@;
        sort_by_distance(&mut best);
        proof {
            lemma_permutation_keeps_ids_distinct(unsorted, best@);
            assert forall|j: int|
                0 <= j < best@.len() implies (#[trigger] best@[j]).distance.finite
                    && self.has_node(best@[j].id as int) by {
                assert(best@.contains(best@[j]));
                assert(unsorted.contains(best@[j]));
                let w = choose|w: int| 0 <= w < unsorted.len() && unsorted[w] == best@[j];
            }
            assert forall|j: int| 0 <= j < best@.len() implies reachable(
                self,
                ctx.base.level as int,
                ctx.base.entry,
                (#[trigger] best@[j]).id,
            ) by {
                assert(best@.contains(best@[j]));
                assert(unsorted.contains(best@[j]));
                let w = choose|w: int| 0 <= w < unsorted.len() && unsorted[w] == best@[j];
                assert(visited@.contains(unsorted[w].id));
                let v = choose|v: int|
                    0 <= v < visited@.len() && visited@[v] == unsorted[w].id;
                assert(reachable(self, ctx.base.level as int, ctx.base.entry, visited@[v]));
            }
        }
        Ok(best)
    }
}

} // verus!
