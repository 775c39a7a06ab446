//! Insertion helpers for the HNSW graph: staging a planned insertion and
//! evaluating the trim jobs it schedules.

use rayon::iter::{IntoParallelIterator, ParallelIterator};

use vstd::prelude::*;

use crate::datasource::DataSource;
use crate::hnsw::graph::{
    covered, jobs_cover, new_list_wf, plan_wf, prepared_wf, staged_has, trim_job_wf, update_wf,
    Graph,
};
use crate::hnsw::node::{copy_ids, ids_distinct, TrimJob, TrimResultInternal};
use crate::hnsw::order::{
    lemma_permutation_keeps_ids_distinct, neighbour_ids, sort_by_distance,
};
use crate::hnsw::search::validate_batch_distances;
use crate::hnsw::types::{
    ApplyContext, EdgeContext, LayerPlan, Neighbour, NodeContext, PreparedInsertion,
};
use crate::hnsw::{HnswError, HnswParams};

verus! {

/// What evaluating a trim job yields on success: the same node and layer,
/// at most `max_connections` neighbours, all distinct and all drawn from
/// the job's candidates.
pub open(crate) spec fn trim_outcome_ok(job: TrimJob, t: TrimResultInternal) -> bool {
    &&& t.node == job.node
    &&& t.ctx == job.ctx
    &&& t.neighbours@.len() <= job.ctx.max_connections
    &&& t.neighbours@.len() == if job.candidates@.len() < job.ctx.max_connections {
        job.candidates@.len() as int
    } else {
        job.ctx.max_connections as int
    }
    &&& (ids_distinct(job.candidates@) ==> ids_distinct(t.neighbours@))
    &&& forall|k: int|
        0 <= k < t.neighbours@.len() ==> job.candidates@.contains(#[trigger] t.neighbours@[k])
}

/// Every member of the inserted node's lists for layers below `upto` has a
/// staged update at its layer whose candidates include the inserted node.
pub open(crate) spec fn staged_maps(
    staged: Seq<(usize, usize, Vec<usize>)>,
    lists: Seq<Vec<usize>>,
    upto: int,
    nn: usize,
) -> bool {
    forall|l: int, kk: int|
        #![trigger lists[l]@[kk]]
        0 <= l < upto && 0 <= kk < lists[l]@.len() ==> staged_has(staged, lists[l]@[kk], l, nn)
}

/// Recomputes the best `max_connections` candidates of one over-budget
/// neighbour list: the newly inserted node is moved to the front, distances
/// from the job's node to every candidate are computed and validated, and
/// the list is stably sorted ascending and truncated to the budget.
pub(crate) fn evaluate_trim_job<D: DataSource + Sync>(
    job: TrimJob,
    new_node: usize,
    source: &D,
) -> (r: Result<TrimResultInternal, HnswError>)
    ensures
        r matches Ok(t) ==> trim_outcome_ok(job, t),
        r matches Err(e) ==> e is DataSource || e is InvalidParameters,
{
    let ghost orig = job.candidates@;
    let mut job = job;
    job.prioritise(new_node);
    let distances = match validate_batch_distances(source, job.node, job.candidates.as_slice()) {
        Ok(d) => d,
        Err(e) => {
            return Err(e);
        },
    };
    let mut combined: Vec<Neighbour> = Vec::new();
    let mut i: usize = 0;
    while i < job.candidates.len() && i < distances.len()
        invariant
            i <= job.candidates@.len(),
            i <= distances@.len(),
            job.candidates@.len() == distances@.len(),
            combined@.len() == i,
            forall|j: int| 0 <= j < i ==> (#[trigger] combined@[j]).id == job.candidates@[j],
        decreases job.candidates@.len() - i,
    {
        combined.push(Neighbour { id: job.candidates[i], distance: distances[i] });
        i = i + 1;
    }
    let ghost combined0 = combined@;
    proof {
        if ids_distinct(orig) {
            assert forall|a: int, b: int|
                0 <= a < b < combined@.len() implies neighbour_ids(combined@)[a] != neighbour_ids(
                combined@,
            )[b] by {
                assert(combined@[a].id == job.candidates@[a]);
                assert(combined@[b].id == job.candidates@[b]);
            }
        }
    }
    sort_by_distance(&mut combined);
    let ghost sorted_full = combined@;
    combined.truncate(job.ctx.max_connections);
    let ghost sorted = combined@;
    proof {
        assert forall|k: int| 0 <= k < sorted.len() implies sorted[k] == sorted_full[k] by {
            if job.ctx.max_connections < sorted_full.len() {
                assert(sorted == sorted_full.subrange(0, job.ctx.max_connections as int));
            }
        }
    }
    let mut neighbours: Vec<usize> = Vec::new();
    let mut i: usize = 0;
    while i < combined.len()
        invariant
            i <= combined@.len(),
            combined@ == sorted,
            neighbours@.len() == i,
            forall|j: int| 0 <= j < i ==> (#[trigger] neighbours@[j]) == combined@[j].id,
        decreases combined@.len() - i,
    {
        neighbours.push(combined[i].id);
        i = i + 1;
    }
    proof {
        if ids_distinct(orig) {
            lemma_permutation_keeps_ids_distinct(combined0, sorted_full);
            assert forall|a: int, b: int|
                0 <= a < b < neighbours@.len() implies neighbours@[a] != neighbours@[b] by {
                assert(sorted[a] == sorted_full[a] && sorted[b] == sorted_full[b]);
                assert(neighbour_ids(sorted_full)[a] != neighbour_ids(sorted_full)[b]);
            }
        }
        assert forall|k: int|
            0 <= k < neighbours@.len() implies orig.contains(#[trigger] neighbours@[k]) by {
            assert(neighbours@[k] == sorted[k].id);
            assert(sorted[k] == sorted_full[k]);
            assert(sorted_full.contains(sorted_full[k]));
            assert(combined0.contains(sorted_full[k]));
            let w = choose|w: int| 0 <= w < combined0.len() && combined0[w] == sorted_full[k];
            assert(combined0[w].id == job.candidates@[w]);
            assert(job.candidates@.contains(job.candidates@[w]));
        }
    }
    Ok(TrimResultInternal { node: job.node, ctx: job.ctx, neighbours })
}

/// Relies on rayon's `into_par_iter().map(..).collect::<Result<Vec<_>, _>>()`:
/// the closure — a call of the verified `evaluate_trim_job` — is applied to
/// every job independently; on success the results are collected in input
/// order, and on failure the collection stops with one of the closure
/// errors (rayon leaves unspecified which). The clauses below restate
/// `evaluate_trim_job`'s postcondition element by element.
#[verifier::external_body]
pub(crate) fn evaluate_trim_jobs_parallel<D: DataSource + Sync>(
    jobs: Vec<TrimJob>,
    new_node: usize,
    source: &D,
) -> (r: Result<Vec<TrimResultInternal>, HnswError>)
    ensures
        r matches Ok(ts) ==> ts@.len() == jobs@.len() && (forall|t: int|
            0 <= t < ts@.len() ==> trim_outcome_ok(jobs@[t], #[trigger] ts@[t])),
        r matches Err(e) ==> e is DataSource || e is InvalidParameters,
{
    jobs.into_par_iter().map(|job| evaluate_trim_job(job, new_node, source)).collect()
}

/// Appending one staged layer (as produced by `stage_layer`) to the staging
/// accumulated for the lower layers keeps every staged update well formed,
/// keeps the keys distinct, and extends the member-to-update map to layer
/// `li`. `lists1` is the per-layer view of the inserted node's lists after
/// the layer `li` list has been written.
pub(crate) proof fn lemma_stage_append_staged(
    g: &Graph,
    nn: usize,
    nl: int,
    li: int,
    lists0: Seq<Vec<usize>>,
    lists1: Seq<Vec<usize>>,
    layer_n: Seq<Neighbour>,
    staged0: Seq<(usize, usize, Vec<usize>)>,
    adds0: Seq<(usize, usize, Vec<usize>)>,
    staged_new: Seq<(usize, usize, Vec<usize>)>,
)
    requires
        staged_new == staged0 + adds0,
        0 <= li < lists1.len(),
        lists1.len() == lists0.len(),
        forall|l: int| 0 <= l < lists1.len() && l != li ==> lists1[l] == lists0[l],
        lists1[li]@ == neighbour_ids(layer_n),
        staged_maps(staged0, lists0, li, nn),
        forall|u: int| 0 <= u < staged0.len() ==> staged_entry_ok(g, nn, nl, #[trigger] staged0[u]),
        forall|u: int| 0 <= u < staged0.len() ==> (#[trigger] staged0[u]).1 < li,
        forall|a: int, b: int|
            0 <= a < b < staged0.len() ==> !((#[trigger] staged0[a]).0 == (#[trigger] staged0[b]).0
                && staged0[a].1 == staged0[b].1),
        adds0.len() == layer_n.len(),
        ids_distinct(neighbour_ids(layer_n)),
        forall|u: int|
            0 <= u < adds0.len() ==> (#[trigger] adds0[u]).0 == layer_n[u].id && adds0[u].1 == li
                && adds0[u].2@.contains(nn) && staged_entry_ok(g, nn, nl, adds0[u]),
    ensures
        forall|u: int|
            0 <= u < staged_new.len() ==> staged_entry_ok(g, nn, nl, #[trigger] staged_new[u]),
        forall|u: int| 0 <= u < staged_new.len() ==> (#[trigger] staged_new[u]).1 < li + 1,
        forall|a: int, b: int|
            0 <= a < b < staged_new.len() ==> !((#[trigger] staged_new[a]).0 == (
            #[trigger] staged_new[b]).0 && staged_new[a].1 == staged_new[b].1),
        staged_maps(staged_new, lists1, li + 1, nn),
{
    assert forall|u: int|
        0 <= u < staged_new.len() implies staged_entry_ok(g, nn, nl, #[trigger] staged_new[u])
            && staged_new[u].1 < li + 1 by {
        if u < staged0.len() {
            assert(staged_new[u] == staged0[u]);
        } else {
            assert(staged_new[u] == adds0[u - staged0.len()]);
        }
    }
    assert forall|a: int, b: int|
        0 <= a < b < staged_new.len() implies !((#[trigger] staged_new[a]).0 == (
    #[trigger] staged_new[b]).0 && staged_new[a].1 == staged_new[b].1) by {
        if b < staged0.len() {
            assert(staged_new[a] == staged0[a] && staged_new[b] == staged0[b]);
        } else if a >= staged0.len() {
            let ka = a - staged0.len();
            let kb = b - staged0.len();
            assert(staged_new[a] == adds0[ka] && staged_new[b] == adds0[kb]);
            assert(neighbour_ids(layer_n)[ka] == layer_n[ka].id);
            assert(neighbour_ids(layer_n)[kb] == layer_n[kb].id);
        } else {
            assert(staged_new[a] == staged0[a]);
            assert(staged_new[b] == adds0[b - staged0.len()]);
            assert(staged_new[a].1 < li && staged_new[b].1 == li);
        }
    }
    assert forall|l: int, kk: int|
        #![trigger lists1[l]@[kk]]
        0 <= l < li + 1 && 0 <= kk < lists1[l]@.len() implies staged_has(
        staged_new,
        lists1[l]@[kk],
        l,
        nn,
    ) by {
        if l < li {
            assert(lists1[l] == lists0[l]);
            assert(lists0[l]@[kk] == lists1[l]@[kk]);
            assert(staged_has(staged0, lists0[l]@[kk], l, nn));
            let u0 = choose|u0: int|
                0 <= u0 < staged0.len() && (#[trigger] staged0[u0]).0 == lists0[l]@[kk]
                    && staged0[u0].1 == l && staged0[u0].2@.contains(nn);
            assert(staged_new[u0] == staged0[u0]);
        } else {
            assert(lists1[l]@[kk] == neighbour_ids(layer_n)[kk]);
            assert(neighbour_ids(layer_n)[kk] == layer_n[kk].id);
            assert(staged_new[staged0.len() + kk] == adds0[kk]);
        }
    }
}

/// Appending one staged layer's trim jobs keeps every job answering a
/// staged update, keeps the job keys distinct, and keeps every over-budget
/// update covered by a job.
pub(crate) proof fn lemma_stage_append_jobs(
    g: &Graph,
    nn: usize,
    mc: int,
    li: int,
    layer_n: Seq<Neighbour>,
    staged0: Seq<(usize, usize, Vec<usize>)>,
    adds0: Seq<(usize, usize, Vec<usize>)>,
    jobs0: Seq<TrimJob>,
    jobs_add0: Seq<TrimJob>,
    staged_new: Seq<(usize, usize, Vec<usize>)>,
    jobs_new: Seq<TrimJob>,
)
    requires
        staged_new == staged0 + adds0,
        jobs_new == jobs0 + jobs_add0,
        forall|u: int| 0 <= u < staged0.len() ==> (#[trigger] staged0[u]).1 < li,
        forall|t: int| 0 <= t < jobs0.len() ==> job_matches(g, nn, mc, staged0, #[trigger] jobs0[t]),
        forall|u: int|
            0 <= u < staged0.len() && (#[trigger] staged0[u]).2@.len() > mc ==> covered(
                jobs0,
                staged0[u].0,
                staged0[u].1 as int,
            ),
        forall|a: int, b: int|
            0 <= a < b < jobs0.len() ==> !((#[trigger] jobs0[a]).node == (#[trigger] jobs0[b]).node
                && jobs0[a].ctx.level == jobs0[b].ctx.level),
        adds0.len() == layer_n.len(),
        forall|u: int|
            0 <= u < adds0.len() ==> (#[trigger] adds0[u]).0 == layer_n[u].id && adds0[u].1 == li,
        forall|t: int|
            0 <= t < jobs_add0.len() ==> (#[trigger] jobs_add0[t]).ctx.level == li && job_matches(
                g,
                nn,
                mc,
                adds0,
                jobs_add0[t],
            ),
        forall|a: int, b: int|
            0 <= a < b < jobs_add0.len() ==> !((#[trigger] jobs_add0[a]).node == (
            #[trigger] jobs_add0[b]).node && jobs_add0[a].ctx.level == jobs_add0[b].ctx.level),
        forall|u: int|
            0 <= u < adds0.len() && (#[trigger] adds0[u]).2@.len() > mc ==> covered(
                jobs_add0,
                adds0[u].0,
                adds0[u].1 as int,
            ),
    ensures
        forall|t: int|
            0 <= t < jobs_new.len() ==> job_matches(g, nn, mc, staged_new, #[trigger] jobs_new[t]),
        forall|u: int|
            0 <= u < staged_new.len() && (#[trigger] staged_new[u]).2@.len() > mc ==> covered(
                jobs_new,
                staged_new[u].0,
                staged_new[u].1 as int,
            ),
        forall|a: int, b: int|
            0 <= a < b < jobs_new.len() ==> !((#[trigger] jobs_new[a]).node == (
            #[trigger] jobs_new[b]).node && jobs_new[a].ctx.level == jobs_new[b].ctx.level),
{
    assert forall|t: int|
        0 <= t < jobs_new.len() implies job_matches(g, nn, mc, staged_new, #[trigger] jobs_new[t]) by {
        if t < jobs0.len() {
            assert(jobs_new[t] == jobs0[t]);
            assert(job_matches(g, nn, mc, staged0, jobs0[t]));
            let u0 = choose|u0: int|
                0 <= u0 < staged0.len() && (#[trigger] staged0[u0]).0 == jobs0[t].node
                    && staged0[u0].1 == jobs0[t].ctx.level && jobs0[t].candidates@
                    == staged0[u0].2@;
            assert(staged_new[u0] == staged0[u0]);
        } else {
            let tb = t - jobs0.len();
            assert(jobs_new[t] == jobs_add0[tb]);
            assert(job_matches(g, nn, mc, adds0, jobs_add0[tb]));
            let u0 = choose|u0: int|
                0 <= u0 < adds0.len() && (#[trigger] adds0[u0]).0 == jobs_add0[tb].node
                    && adds0[u0].1 == jobs_add0[tb].ctx.level && jobs_add0[tb].candidates@
                    == adds0[u0].2@;
            assert(staged_new[staged0.len() + u0] == adds0[u0]);
        }
    }
    assert forall|u: int|
        0 <= u < staged_new.len() && (#[trigger] staged_new[u]).2@.len() > mc implies covered(
        jobs_new,
        staged_new[u].0,
        staged_new[u].1 as int,
    ) by {
        if u < staged0.len() {
            assert(staged_new[u] == staged0[u]);
            assert(covered(jobs0, staged0[u].0, staged0[u].1 as int));
            let t0 = choose|t0: int|
                0 <= t0 < jobs0.len() && (#[trigger] jobs0[t0]).node == staged0[u].0
                    && jobs0[t0].ctx.level == staged0[u].1;
            assert(jobs_new[t0] == jobs0[t0]);
        } else {
            let ub = u - staged0.len();
            assert(staged_new[u] == adds0[ub]);
            assert(covered(jobs_add0, adds0[ub].0, adds0[ub].1 as int));
            let t0 = choose|t0: int|
                0 <= t0 < jobs_add0.len() && (#[trigger] jobs_add0[t0]).node == adds0[ub].0
                    && jobs_add0[t0].ctx.level == adds0[ub].1;
            assert(jobs_new[jobs0.len() + t0] == jobs_add0[t0]);
        }
    }
    assert forall|a: int, b: int|
        0 <= a < b < jobs_new.len() implies !((#[trigger] jobs_new[a]).node == (
    #[trigger] jobs_new[b]).node && jobs_new[a].ctx.level == jobs_new[b].ctx.level) by {
        if b < jobs0.len() {
            assert(jobs_new[a] == jobs0[a] && jobs_new[b] == jobs0[b]);
        } else if a >= jobs0.len() {
            assert(jobs_new[a] == jobs_add0[a - jobs0.len()]);
            assert(jobs_new[b] == jobs_add0[b - jobs0.len()]);
        } else {
            assert(jobs_new[a] == jobs0[a]);
            assert(jobs_new[b] == jobs_add0[b - jobs0.len()]);
            assert(job_matches(g, nn, mc, staged0, jobs0[a]));
            let u0 = choose|u0: int|
                0 <= u0 < staged0.len() && (#[trigger] staged0[u0]).0 == jobs0[a].node
                    && staged0[u0].1 == jobs0[a].ctx.level && jobs0[a].candidates@
                    == staged0[u0].2@;
            assert(staged0[u0].1 < li);
            assert(jobs_new[b].ctx.level == li);
        }
    }
}

impl Graph {
    /// Builds the reverse-edge candidate list for one planned neighbour of
    /// the node being inserted: the neighbour's current list at this layer,
    /// extended by the inserted node, together with a trim job when the
    /// list now exceeds the degree budget.
    fn stage_one(&self, node: NodeContext, nb_id: usize, li: usize, params: &HnswParams) -> (r: (
        Vec<usize>,
        Option<TrimJob>,
    ))
        requires
            self.wf_nodes(),
            *params == self.spec_params(),
            self.has_node(nb_id as int),
            self.has_node(node.node as int),
            nb_id != node.node,
            li <= node.level,
            !self.layer(nb_id as int, li as int).contains(node.node),
        ensures
            staged_entry_ok(self, node.node, node.level as int, (nb_id, li, r.0)),
            r.0@ == self.layer(nb_id as int, li as int).push(node.node),
            r.0@.contains(node.node),
            r.1 is Some <==> r.0@.len() > self.spec_params().max_connections,
            r.1 matches Some(job) ==> job.node == nb_id && job.ctx.level == li
                && job.ctx.max_connections == self.spec_params().max_connections
                && job.candidates@ == r.0@,
    {
        let nn_id = node.node;
        let existing = match self.node(nb_id) {
            Some(n) => n,
            None => {
                return (Vec::new(), None);
            },
        };
        let mut cands = copy_ids(existing.neighbours(li));
        let ghost base = cands@;
        proof {
            assert(base == self.layer(nb_id as int, li as int));
            assert(self.list_wf(nb_id as int, li as int)) by {
                if 0 <= li < self.node_layers(nb_id as int).len() {
                    assert(self.node_wf(nb_id as int));
                } else {
                    assert(self.layer(nb_id as int, li as int) =~= Seq::<usize>::empty());
                }
            }
        }
        if !contains_id(&cands, nn_id) {
            cands.push(nn_id);
        }
        proof {
            assert(!base.contains(nn_id)) by {
                assert(base == self.layer(nb_id as int, li as int));
            }
            assert(cands@ =~= base.push(nn_id));
            assert(cands@.contains(nn_id)) by {
                assert(cands@[base.len() as int] == nn_id);
            }
            assert(cands@.len() <= self.spec_params().max_connections + 1);
            assert forall|a: int, b: int|
                0 <= a < b < cands@.len() implies cands@[a] != cands@[b] by {
                if b < base.len() {
                    assert(cands@[a] == base[a] && cands@[b] == base[b]);
                } else {
                    assert(cands@[b] == nn_id && cands@[a] == base[a]);
                }
            }
            assert forall|j: int|
                0 <= j < cands@.len() implies {
                let c = #[trigger] cands@[j];
                &&& c != nb_id
                &&& self.has_node(c as int)
                &&& (c == nn_id || li <= self.top_level(c as int))
            } by {
                if j < base.len() {
                    assert(cands@[j] == base[j]);
                } else {
                    assert(cands@[j] == nn_id);
                }
            }
        }
        proof {
            reveal(staged_entry_ok);
        }
        let edge_ctx = EdgeContext::for_level(params, li);
        if cands.len() > edge_ctx.max_connections {
            // the evaluation step moves the inserted node to the front of the
            // candidates before computing distances
            let job = TrimJob { node: nb_id, ctx: edge_ctx, candidates: copy_ids(cands.as_slice()) };
            (cands, Some(job))
        } else {
            (cands, None)
        }
    }

    /// Stages one layer of a planned insertion: the inserted node's list for
    /// this layer (the planned neighbour identifiers, in order), one staged
    /// reverse-edge update per planned neighbour — each candidate list is
    /// the neighbour's current list extended by the inserted node — and a
    /// trim job for every update whose candidates exceed the degree budget.
    #[verifier::rlimit(100)]
    fn stage_layer(&self, node: NodeContext, li: usize, layer: &LayerPlan, params: &HnswParams) -> (
    r: (Vec<usize>, Vec<(usize, usize, Vec<usize>)>, Vec<TrimJob>))
        requires
            self.wf_nodes(),
            *params == self.spec_params(),
            self.has_node(node.node as int),
            li <= node.level,
            ids_distinct(neighbour_ids(layer.neighbours@)),
            forall|k: int|
                0 <= k < layer.neighbours@.len() ==> (#[trigger] layer.neighbours@[k]).id
                    != node.node && self.has_node(layer.neighbours@[k].id as int),
            forall|k: int|
                0 <= k < layer.neighbours@.len() ==> !(#[trigger] self.layer(
                    layer.neighbours@[k].id as int,
                    li as int,
                )).contains(node.node),
        ensures
            r.0@ == neighbour_ids(layer.neighbours@),
            r.1@.len() == layer.neighbours@.len(),
            forall|u: int|
                0 <= u < r.1@.len() ==> (#[trigger] r.1@[u]).0 == layer.neighbours@[u].id
                    && r.1@[u].1 == li && r.1@[u].2@.contains(node.node) && staged_entry_ok(
                    self,
                    node.node,
                    node.level as int,
                    r.1@[u],
                ),
            forall|t: int|
                0 <= t < r.2@.len() ==> (#[trigger] r.2@[t]).ctx.level == li && job_matches(
                    self,
                    node.node,
                    self.spec_params().max_connections as int,
                    r.1@,
                    r.2@[t],
                ),
            forall|a: int, b: int|
                0 <= a < b < r.2@.len() ==> !((#[trigger] r.2@[a]).node == (
                #[trigger] r.2@[b]).node && r.2@[a].ctx.level == r.2@[b].ctx.level),
            forall|u: int|
                0 <= u < r.1@.len() && (#[trigger] r.1@[u]).2@.len()
                    > self.spec_params().max_connections ==> covered(
                    r.2@,
                    r.1@[u].0,
                    r.1@[u].1 as int,
                ),
    {
        let mut new_list: Vec<usize> = Vec::new();
        let mut adds: Vec<(usize, usize, Vec<usize>)> = Vec::new();
        let mut jobs: Vec<TrimJob> = Vec::new();
        let mut k: usize = 0;
        while k < layer.neighbours.len()
            invariant
                self.wf_nodes(),
                *params == self.spec_params(),
                self.has_node(node.node as int),
                li <= node.level,
                ids_distinct(neighbour_ids(layer.neighbours@)),
                forall|kk: int|
                    0 <= kk < layer.neighbours@.len() ==> (#[trigger] layer.neighbours@[kk]).id
                        != node.node && self.has_node(layer.neighbours@[kk].id as int),
                forall|kk: int|
                    0 <= kk < layer.neighbours@.len() ==> !(#[trigger] self.layer(
                        layer.neighbours@[kk].id as int,
                        li as int,
                    )).contains(node.node),
                k <= layer.neighbours@.len(),
                new_list@ == neighbour_ids(layer.neighbours@).subrange(0, k as int),
                adds@.len() == k,
                forall|u: int|
                    0 <= u < k ==> (#[trigger] adds@[u]).0 == layer.neighbours@[u].id && adds@[u].1
                        == li && adds@[u].2@.contains(node.node) && staged_entry_ok(
                        self,
                        node.node,
                        node.level as int,
                        adds@[u],
                    ),
                forall|t: int|
                    0 <= t < jobs@.len() ==> (#[trigger] jobs@[t]).ctx.level == li && job_matches(
                        self,
                        node.node,
                        self.spec_params().max_connections as int,
                        adds@,
                        jobs@[t],
                    ),
                forall|a: int, b: int|
                    0 <= a < b < jobs@.len() ==> !((#[trigger] jobs@[a]).node == (
                    #[trigger] jobs@[b]).node && jobs@[a].ctx.level == jobs@[b].ctx.level),
                forall|u: int|
                    0 <= u < k && (#[trigger] adds@[u]).2@.len()
                        > self.spec_params().max_connections ==> covered(
                        jobs@,
                        adds@[u].0,
                        adds@[u].1 as int,
                    ),
            decreases layer.neighbours@.len() - k,
        {
            let nb = layer.neighbours[k];
            proof {
                assert(layer.neighbours@[k as int] == nb);
                assert(nb.id != node.node && self.has_node(nb.id as int));
            }
            if nb.id == node.node {
                // the plan never lists the inserted node itself
                k = k + 1;
                continue ;
            }
            new_list.push(nb.id);
            proof {
                assert(neighbour_ids(layer.neighbours@)[k as int] == nb.id);
                assert(new_list@ =~= neighbour_ids(layer.neighbours@).subrange(0, k + 1));
            }
            let ghost adds0 = adds@;
            let ghost jobs0 = jobs@;
            let (cands, job_opt) = self.stage_one(node, nb.id, li, params);
            let ghost job_new = job_opt;
            match job_opt {
                Some(job) => {
                    jobs.push(job);
                },
                None => {},
            }
            adds.push((nb.id, li, cands));
            proof {
                assert forall|u: int| 0 <= u < adds0.len() implies #[trigger] adds@[u]
                    == adds0[u] by {}
                assert(adds@[k as int].0 == nb.id && adds@[k as int].1 == li);
                assert(staged_entry_ok(self, node.node, node.level as int, adds@[k as int]));
                assert forall|t: int|
                    0 <= t < jobs@.len() implies (#[trigger] jobs@[t]).ctx.level == li
                        && job_matches(
                        self,
                        node.node,
                        self.spec_params().max_connections as int,
                        adds@,
                        jobs@[t],
                    ) by {
                    if t < jobs0.len() {
                        assert(jobs@[t] == jobs0[t]);
                        assert(job_matches(
                            self,
                            node.node,
                            self.spec_params().max_connections as int,
                            adds0,
                            jobs0[t],
                        ));
                        let u0 = choose|u0: int|
                            0 <= u0 < adds0.len() && (#[trigger] adds0[u0]).0 == jobs0[t].node
                                && adds0[u0].1 == jobs0[t].ctx.level && jobs0[t].candidates@
                                == adds0[u0].2@;
                        assert(adds@[u0] == adds0[u0]);
                    } else {
                        assert(jobs@[t] == job_new->0);
                        assert(adds@[k as int].2 == cands);
                    }
                }
                assert forall|a: int, b: int|
                    0 <= a < b < jobs@.len() implies !((#[trigger] jobs@[a]).node == (
                #[trigger] jobs@[b]).node && jobs@[a].ctx.level == jobs@[b].ctx.level) by {
                    if b < jobs0.len() {
                        assert(jobs@[a] == jobs0[a] && jobs@[b] == jobs0[b]);
                    } else {
                        assert(jobs@[b] == job_new->0);
                        assert(jobs@[b].node == nb.id);
                        if a < jobs0.len() {
                            assert(jobs@[a] == jobs0[a]);
                            let u0 = choose|u0: int|
                                0 <= u0 < adds0.len() && (#[trigger] adds0[u0]).0 == jobs0[a].node
                                    && adds0[u0].1 == jobs0[a].ctx.level && jobs0[a].candidates@
                                    == adds0[u0].2@;
                            assert(jobs@[a].node == layer.neighbours@[u0].id);
                            assert(neighbour_ids(layer.neighbours@)[u0] != neighbour_ids(
                                layer.neighbours@,
                            )[k as int]);
                        }
                    }
                }
                assert forall|u: int|
                    0 <= u < k + 1 && (#[trigger] adds@[u]).2@.len()
                        > self.spec_params().max_connections implies covered(
                    jobs@,
                    adds@[u].0,
                    adds@[u].1 as int,
                ) by {
                    if u < k {
                        assert(adds@[u] == adds0[u]);
                        assert(covered(jobs0, adds0[u].0, adds0[u].1 as int));
                        let t0 = choose|t0: int|
                            0 <= t0 < jobs0.len() && (#[trigger] jobs0[t0]).node == adds0[u].0
                                && jobs0[t0].ctx.level == adds0[u].1;
                        assert(jobs@[t0] == jobs0[t0]);
                    } else {
                        assert(adds@[u].2 == cands);
                        assert(job_new is Some);
                        assert(jobs@[jobs0.len() as int] == job_new->0);
                    }
                }
            }
            k = k + 1;
        }
        proof {
            assert(new_list@ =~= neighbour_ids(layer.neighbours@));
        }
        (new_list, adds, jobs)
    }

    /// Applies a planned insertion and schedules trimming jobs in a single
    /// pass. The new node is attached to the live graph; everything else —
    /// the node's per-layer lists, the reverse-edge candidate lists of its
    /// planned neighbours, and the trim jobs for lists that now exceed the
    /// degree budget — is staged in the returned `PreparedInsertion` for
    /// `commit_insertion` to write. Every planned neighbour's staged
    /// candidate list gains the new node: the reverse edge is always
    /// attempted, though a later trim may drop it again.
    #[verifier::loop_isolation(false)]
    #[verifier::rlimit(100)]
    pub(crate) fn apply_insertion<'a>(&mut self, node: NodeContext, ctx: ApplyContext<'a>) -> (r:
        Result<(PreparedInsertion, Vec<TrimJob>), HnswError>)
        requires
            old(self).wf(),
            node.node < usize::MAX,
            *ctx.params == old(self).spec_params(),
            plan_wf(
                ctx.plan,
                old(self),
                node.node,
                old(self).spec_params().max_connections as int,
            ),
            ctx.plan.layers@.len() <= node.level + 1,
            forall|li: int|
                0 <= li < ctx.plan.layers@.len() ==> (#[trigger] ctx.plan.layers@[li]).level == li,
        ensures
            final(self).spec_params() == old(self).spec_params(),
            final(self).spec_entry() == old(self).spec_entry(),
            final(self).wf_nodes(),
            r is Ok <==> node.level <= old(self).spec_params().max_level && !old(self).has_node(
                node.node as int,
            ),
            r is Err ==> final(self).same_state(old(self)),
            r matches Err(e) ==> if node.level > old(self).spec_params().max_level {
                e is InvalidParameters
            } else {
                e matches HnswError::DuplicateNode { node: n } && n == node.node
            },
            r is Ok && old(self).entry_maximal() ==> final(self).entry_maximal_except(
                node.node as int,
            ),
            r matches Ok(pj) ==> {
                let p = pj.0;
                let jobs = pj.1;
                &&& p.node == node
                &&& final(self).spec_count() == old(self).spec_count() + 1
                &&& final(self).table_len() == if node.node + 1 > old(self).table_len() {
                    node.node + 1
                } else {
                    old(self).table_len() as int
                }
                &&& final(self).preserves_slots_except(old(self), node.node as int)
                &&& (forall|i: int|
                    i != node.node ==> (final(self).has_node(i) <==> old(self).has_node(i)))
                &&& (forall|i: int|
                    i != node.node && old(self).has_node(i) ==> final(self).node_layers(i) == old(
                        self,
                    ).node_layers(i))
                &&& (forall|l: int|
                    final(self).layer(node.node as int, l) == Seq::<usize>::empty())
                &&& prepared_wf(final(self), &p)
                &&& (forall|t: int|
                    0 <= t < jobs@.len() ==> trim_job_wf(final(self), &p, #[trigger] jobs@[t]))
                &&& jobs_cover(final(self), &p, jobs@)
                &&& (forall|a: int, b: int|
                    0 <= a < b < jobs@.len() ==> !((#[trigger] jobs@[a]).node == (
                    #[trigger] jobs@[b]).node && jobs@[a].ctx.level == jobs@[b].ctx.level))
                &&& (forall|u: int|
                    0 <= u < p.updates@.len() ==> (#[trigger] p.updates@[u]).2@
                        == final(self).layer(p.updates@[u].0 as int, p.updates@[u].1 as int).push(
                        node.node,
                    ))
                &&& (forall|l: int|
                    0 <= l < ctx.plan.layers@.len() ==> p.new_node_neighbours@[l]@
                        == neighbour_ids(ctx.plan.layers@[l].neighbours@))
                &&& (forall|l: int|
                    ctx.plan.layers@.len() <= l <= node.level ==> p.new_node_neighbours@[l]@
                        == Seq::<usize>::empty())
            },
    {
        match self.attach_node(node.node, node.level) {
            Ok(()) => {},
            Err(e) => {
                return Err(e);
            },
        }
        let mc = ctx.params.max_connections();
        let mut new_node_neighbours: Vec<Vec<usize>> = Vec::new();
        while new_node_neighbours.len() < node.level + 1
            invariant
                new_node_neighbours@.len() <= node.level + 1,
                forall|l: int|
                    0 <= l < new_node_neighbours@.len() ==> (#[trigger] new_node_neighbours@[l])@
                        =~= Seq::<usize>::empty(),
            decreases node.level + 1 - new_node_neighbours@.len(),
        {
            new_node_neighbours.push(Vec::new());
        }
        let mut staged: Vec<(usize, usize, Vec<usize>)> = Vec::new();
        let mut trim_jobs: Vec<TrimJob> = Vec::new();
        let ghost nn = node.node;
        let ghost nl = node.level;
        let mut li: usize = 0;
        while li < ctx.plan.layers.len()
            invariant
                li <= ctx.plan.layers@.len(),
                new_node_neighbours@.len() == nl + 1,
                forall|l: int|
                    li <= l <= nl ==> (#[trigger] new_node_neighbours@[l])@ == Seq::<
                        usize,
                    >::empty(),
                forall|l: int|
                    0 <= l < li ==> (#[trigger] new_node_neighbours@[l])@ == neighbour_ids(
                        ctx.plan.layers@[l].neighbours@,
                    ),
                forall|u: int|
                    0 <= u < staged@.len() ==> staged_entry_ok(
                        self,
                        nn,
                        nl as int,
                        #[trigger] staged@[u],
                    ),
                forall|u: int| 0 <= u < staged@.len() ==> (#[trigger] staged@[u]).1 < li,
                forall|a: int, b: int|
                    0 <= a < b < staged@.len() ==> !((#[trigger] staged@[a]).0 == (
                    #[trigger] staged@[b]).0 && staged@[a].1 == staged@[b].1),
                staged_maps(staged@, new_node_neighbours@, li as int, nn),
                forall|t: int|
                    0 <= t < trim_jobs@.len() ==> job_matches(
                        self,
                        nn,
                        mc as int,
                        staged@,
                        #[trigger] trim_jobs@[t],
                    ),
                forall|u: int|
                    0 <= u < staged@.len() && (#[trigger] staged@[u]).2@.len() > mc ==> covered(
                        trim_jobs@,
                        staged@[u].0,
                        staged@[u].1 as int,
                    ),
                forall|a: int, b: int|
                    0 <= a < b < trim_jobs@.len() ==> !((#[trigger] trim_jobs@[a]).node == (
                    #[trigger] trim_jobs@[b]).node && trim_jobs@[a].ctx.level
                        == trim_jobs@[b].ctx.level),
            decreases ctx.plan.layers@.len() - li,
        {
            let layer = &ctx.plan.layers[li];
            proof {
                assert(ctx.plan.layers@[li as int] == *layer);
                assert forall|k: int|
                    0 <= k < layer.neighbours@.len() implies !(#[trigger] self.layer(
                    layer.neighbours@[k].id as int,
                    li as int,
                )).contains(node.node) by {
                    let nb_id = layer.neighbours@[k].id;
                    assert(self.layer(nb_id as int, li as int) == old(self).layer(
                        nb_id as int,
                        li as int,
                    ));
                    assert(old(self).list_wf(nb_id as int, li as int)) by {
                        if 0 <= li < old(self).node_layers(nb_id as int).len() {
                            assert(old(self).node_wf(nb_id as int));
                        } else {
                            assert(old(self).layer(nb_id as int, li as int) =~= Seq::<
                                usize,
                            >::empty());
                        }
                    }
                    if self.layer(nb_id as int, li as int).contains(node.node) {
                        let j = choose|j: int|
                            0 <= j < old(self).layer(nb_id as int, li as int).len() && old(
                                self,
                            ).layer(nb_id as int, li as int)[j] == node.node;
                        assert(old(self).has_node(
                            old(self).layer(nb_id as int, li as int)[j] as int,
                        ));
                    }
                }
            }
            let (new_list, mut adds, mut jobs_add) = self.stage_layer(node, li, layer, ctx.params);
            let ghost new_list_v = new_list@;
            let ghost lists0 = new_node_neighbours@;
            let lv = &mut new_node_neighbours[li];
            *lv = new_list;
            let ghost staged0 = staged@;
            let ghost adds0 = adds@;
            staged.append(&mut adds);
            let ghost jobs0 = trim_jobs@;
            let ghost jobs_add0 = jobs_add@;
            trim_jobs.append(&mut jobs_add);
            proof {
                assert(staged@ == staged0 + adds0);
                assert(trim_jobs@ == jobs0 + jobs_add0);
                assert(new_node_neighbours@ == lists0.update(li as int, new_node_neighbours@[li as int]));
                lemma_stage_append_staged(
                    self,
                    nn,
                    nl as int,
                    li as int,
                    lists0,
                    new_node_neighbours@,
                    layer.neighbours@,
                    staged0,
                    adds0,
                    staged@,
                );
                lemma_stage_append_jobs(
                    self,
                    nn,
                    mc as int,
                    li as int,
                    layer.neighbours@,
                    staged0,
                    adds0,
                    jobs0,
                    jobs_add0,
                    staged@,
                    trim_jobs@,
                );
                assert forall|l: int|
                    li + 1 <= l <= nl implies (#[trigger] new_node_neighbours@[l])@ == Seq::<
                    usize,
                >::empty() by {
                    assert(new_node_neighbours@[l] == lists0[l]);
                }
                assert forall|l: int|
                    0 <= l < li + 1 implies (#[trigger] new_node_neighbours@[l])@ == neighbour_ids(
                    ctx.plan.layers@[l].neighbours@,
                ) by {
                    if l < li {
                        assert(new_node_neighbours@[l] == lists0[l]);
                    }
                }
            }
            li = li + 1;
        }
        let promote_entry = match self.entry() {
            None => true,
            Some(e) => node.level > e.level,
        };
        let ghost lists_final = new_node_neighbours@;
        let ghost staged_final = staged@;
        let prepared = PreparedInsertion {
            node,
            promote_entry,
            new_node_neighbours,
            updates: staged,
        };
        proof {
            assert(prepared.updates@ == staged_final);
            assert(prepared.new_node_neighbours@ == lists_final);
            assert forall|l: int| 0 <= l <= nl implies new_list_wf(self, &prepared, l) by {
                if l < ctx.plan.layers@.len() {
                    let s = prepared.new_node_neighbours@[l]@;
                    assert(s == neighbour_ids(ctx.plan.layers@[l].neighbours@));
                    assert(s.len() <= mc);
                    assert forall|kk: int|
                        0 <= kk < s.len() implies {
                        let c = #[trigger] s[kk];
                        &&& c != nn
                        &&& self.has_node(c as int)
                        &&& exists|u: int|
                            0 <= u < prepared.updates@.len() && (#[trigger] prepared.updates@[u]).0
                                == c && prepared.updates@[u].1 == l
                                && prepared.updates@[u].2@.contains(nn)
                    } by {
                        assert(s[kk] == ctx.plan.layers@[l].neighbours@[kk].id);
                        assert(old(self).has_node(s[kk] as int));
                        assert(lists_final[l]@[kk] == s[kk]);
                        assert(staged_has(staged_final, lists_final[l]@[kk], l, nn));
                        let u0 = choose|u0: int|
                            0 <= u0 < staged_final.len() && (#[trigger] staged_final[u0]).0
                                == lists_final[l]@[kk] && staged_final[u0].1 == l
                                && staged_final[u0].2@.contains(nn);
                        assert(prepared.updates@[u0] == staged_final[u0]);
                    }
                } else {
                    assert(prepared.new_node_neighbours@[l]@ == Seq::<usize>::empty());
                }
            }
            assert forall|u: int|
                #![trigger prepared.updates@[u]]
                0 <= u < prepared.updates@.len() implies update_wf(self, &prepared, u)
                    && prepared.updates@[u].2@ == self.layer(
                    prepared.updates@[u].0 as int,
                    prepared.updates@[u].1 as int,
                ).push(nn) by {
                reveal(staged_entry_ok);
                assert(staged_entry_ok(self, nn, nl as int, staged_final[u]));
                assert(prepared.updates@[u] == staged_final[u]);
            }
            match self.spec_entry() {
                Some(e) => {
                    assert(old(self).has_node(e.node as int));
                    assert(e.node != nn);
                },
                None => {
                    assert forall|i: int| i != nn implies !self.has_node(i) by {
                        if self.has_node(i) {
                            assert(old(self).has_node(i));
                        }
                    }
                },
            }
            assert forall|t: int|
                0 <= t < trim_jobs@.len() implies trim_job_wf(
                self,
                &prepared,
                #[trigger] trim_jobs@[t],
            ) by {
                assert(job_matches(self, nn, mc as int, staged@, trim_jobs@[t]));
            }
            if old(self).entry_maximal() {
                crate::hnsw::graph::lemma_maximal_after_attach(old(self), self, nn as int);
            }
        }
        Ok((prepared, trim_jobs))
    }
}

/// A staged reverse-edge update, before it is wrapped in a
/// `PreparedInsertion`: the same conditions as `update_wf`, plus the fact
/// that the inserted node is among the candidates.
#[verifier::opaque]
pub open(crate) spec fn staged_entry_ok(
    g: &Graph,
    nn: usize,
    nl: int,
    e: (usize, usize, Vec<usize>),
) -> bool {
    &&& e.0 != nn
    &&& g.has_node(e.0 as int)
    &&& e.1 <= nl
    &&& ids_distinct(e.2@)
    &&& e.2@.len() <= g.spec_params().max_connections + 1
    &&& e.2@.contains(nn)
    &&& e.2@ == g.layer(e.0 as int, e.1 as int).push(nn)
    &&& forall|k: int|
        0 <= k < e.2@.len() ==> {
            let c = #[trigger] e.2@[k];
            &&& c != e.0
            &&& g.has_node(c as int)
            &&& (c == nn || e.1 <= g.top_level(c as int))
        }
}

/// A scheduled trim job answers exactly one staged update: same key, same
/// candidates up to the reordering done by `prioritise`, and a candidate
/// list that exceeds the degree budget.
pub open(crate) spec fn job_matches(
    g: &Graph,
    nn: usize,
    mc: int,
    staged: Seq<(usize, usize, Vec<usize>)>,
    job: TrimJob,
) -> bool {
    &&& job.ctx.max_connections == mc
    &&& job.candidates@.len() > mc
    &&& exists|u: int|
        0 <= u < staged.len() && (#[trigger] staged[u]).0 == job.node && staged[u].1
            == job.ctx.level && job.candidates@ == staged[u].2@
}

/// Whether `v` holds `x`.
fn contains_id(v: &Vec<usize>, x: usize) -> (r: bool)
    ensures
        r == v@.contains(x),
{
    let mut k: usize = 0;
    while k < v.len()
        invariant
            k <= v@.len(),
            forall|j: int| 0 <= j < k ==> v@[j] != x,
        decreases v@.len() - k,
    {
        if v[k] == x {
            return true;
        }
        k = k + 1;
    }
    false
}

} // verus!
