//! Graph representation and insertion orchestration.

use vstd::prelude::*;

use crate::datasource::DataSource;
use crate::hnsw::insert::{evaluate_trim_jobs_parallel, trim_outcome_ok};
use crate::hnsw::node::{copy_ids, ids_distinct, Node, TrimResultInternal};
use crate::hnsw::types::ApplyContext;
use crate::hnsw::order::{
    lemma_permutation_keeps_ids_distinct, neighbour_ids, sort_by_distance, sorted_by_distance,
};
use crate::hnsw::search::validate_batch_distances;
use crate::hnsw::types::{
    EntryPoint, InsertionPlan, LayerPlan, Neighbour, NodeContext, PreparedInsertion, TrimResult,
};
use crate::hnsw::{HnswError, HnswParams};

verus! {

/// What `plan_insertion` promises of each planned layer: the layer at index
/// `li` targets level `li` and lists at most `max_connections` distinct
/// existing nodes other than the inserted one, sorted by distance, every
/// distance finite.
pub open(crate) spec fn plan_wf(plan: InsertionPlan, g: &Graph, new_node: usize, mc: int) -> bool {
    forall|li: int|
        0 <= li < plan.layers@.len() ==> {
            let layer = #[trigger] plan.layers@[li];
            &&& layer.level == li
            &&& layer.neighbours@.len() <= mc
            &&& sorted_by_distance(layer.neighbours@)
            &&& ids_distinct(neighbour_ids(layer.neighbours@))
            &&& forall|k: int|
                0 <= k < layer.neighbours@.len() ==> {
                    let nb = #[trigger] layer.neighbours@[k];
                    nb.id != new_node && g.has_node(nb.id as int) && nb.distance.finite
                }
        }
}

/// Number of occupied slots in a node table.
pub open spec fn occupied(s: Seq<Option<Node>>) -> nat
    decreases s.len(),
{
    if s.len() == 0 {
        0
    } else {
        occupied(s.drop_last()) + if s.last() is Some {
            1nat
        } else {
            0nat
        }
    }
}

proof fn lemma_occupied_push(s: Seq<Option<Node>>, v: Option<Node>)
    ensures
        occupied(s.push(v)) == occupied(s) + if v is Some {
            1nat
        } else {
            0nat
        },
{
    assert(s.push(v).drop_last() =~= s);
    assert(s.push(v).last() == v);
}

proof fn lemma_occupied_le(s: Seq<Option<Node>>)
    ensures
        occupied(s) <= s.len(),
    decreases s.len(),
{
    if s.len() > 0 {
        lemma_occupied_le(s.drop_last());
    }
}

proof fn lemma_occupied_update(s: Seq<Option<Node>>, i: int, v: Option<Node>)
    requires
        0 <= i < s.len(),
    ensures
        occupied(s.update(i, v)) + if s[i] is Some {
            1nat
        } else {
            0nat
        } == occupied(s) + if v is Some {
            1nat
        } else {
            0nat
        },
    decreases s.len(),
{
    let t = s.update(i, v);
    if i == s.len() - 1 {
        assert(t.drop_last() =~= s.drop_last());
        assert(t.last() == v);
        assert(s.last() == s[i]);
    } else {
        assert(t.drop_last() =~= s.drop_last().update(i, v));
        assert(t.last() == s.last());
        lemma_occupied_update(s.drop_last(), i, v);
    }
}

/// A table whose slots from `p` on are all empty has the occupancy of its
/// prefix.
proof fn lemma_occupied_none_tail(s: Seq<Option<Node>>, p: int)
    requires
        0 <= p <= s.len(),
        forall|i: int| p <= i < s.len() ==> (#[trigger] s[i]) is None,
    ensures
        occupied(s) == occupied(s.subrange(0, p)),
    decreases s.len() - p,
{
    if p < s.len() {
        assert(s.drop_last() =~= s.subrange(0, s.len() - 1));
        lemma_occupied_none_tail(s.subrange(0, s.len() - 1), p);
        assert(s.subrange(0, s.len() - 1).subrange(0, p) =~= s.subrange(0, p));
    } else {
        assert(s.subrange(0, p) =~= s);
    }
}

/// A table whose slots from `p` on are all empty except one holds the
/// occupancy of its prefix plus one.
proof fn lemma_occupied_single_tail(s: Seq<Option<Node>>, p: int, node: int)
    requires
        0 <= p <= node < s.len(),
        s[node] is Some,
        forall|i: int| p <= i < s.len() && i != node ==> (#[trigger] s[i]) is None,
    ensures
        occupied(s) == occupied(s.subrange(0, p)) + 1,
    decreases s.len(),
{
    if node == s.len() - 1 {
        assert(s.drop_last() =~= s.subrange(0, s.len() - 1));
        lemma_occupied_none_tail(s.subrange(0, s.len() - 1), p);
        assert(s.subrange(0, s.len() - 1).subrange(0, p) =~= s.subrange(0, p));
    } else {
        assert(s.drop_last() =~= s.subrange(0, s.len() - 1));
        lemma_occupied_single_tail(s.subrange(0, s.len() - 1), p, node);
        assert(s.subrange(0, s.len() - 1).subrange(0, p) =~= s.subrange(0, p));
        assert(s.last() is None);
    }
}

proof fn lemma_occupied_slot_free(s: Seq<Option<Node>>, i: int)
    requires
        0 <= i < s.len(),
        s[i] is None,
    ensures
        occupied(s) < s.len(),
    decreases s.len(),
{
    if i == s.len() - 1 {
        lemma_occupied_le(s.drop_last());
    } else {
        lemma_occupied_slot_free(s.drop_last(), i);
    }
}

/// Some staged update targets node `c` at layer `l` with candidates that
/// include the inserted node `nn`.
pub open(crate) spec fn staged_has(
    staged: Seq<(usize, usize, Vec<usize>)>,
    c: usize,
    l: int,
    nn: usize,
) -> bool {
    exists|u: int|
        0 <= u < staged.len() && (#[trigger] staged[u]).0 == c && staged[u].1 == l
            && staged[u].2@.contains(nn)
}

/// Some trim job answers the key `(id, l)`.
pub open(crate) spec fn covered(jobs: Seq<crate::hnsw::node::TrimJob>, id: usize, l: int) -> bool {
    exists|t: int|
        0 <= t < jobs.len() && (#[trigger] jobs[t]).node == id && jobs[t].ctx.level == l
}

/// Some trim result answers the key `(id, l)`.
pub open(crate) spec fn trim_covered(trims: Seq<TrimResult>, id: usize, l: int) -> bool {
    exists|t: int| 0 <= t < trims.len() && (#[trigger] trims[t]).node == id && trims[t].level == l
}

/// The staged update at index `u` targets an existing node other than the
/// inserted one, at a layer within the inserted node's range; its candidate
/// list is duplicate-free, self-loop-free, at most one entry over the degree
/// budget, and every candidate either is the inserted node or an existing
/// node that already stores this layer. `g` is the graph right after the new
/// node's attachment.
pub open(crate) spec fn update_wf(g: &Graph, p: &PreparedInsertion, u: int) -> bool {
    let nn = p.node.node;
    let entry = p.updates@[u];
    let cands = entry.2@;
    &&& entry.0 != nn
    &&& g.has_node(entry.0 as int)
    &&& entry.1 <= p.node.level
    &&& ids_distinct(cands)
    &&& cands.len() <= g.spec_params().max_connections + 1
    &&& forall|k: int|
        0 <= k < cands.len() ==> {
            let c = #[trigger] cands[k];
            &&& c != entry.0
            &&& g.has_node(c as int)
            &&& (c == nn || entry.1 <= g.top_level(c as int))
        }
}

/// No two staged updates share a `(node, layer)` key.
pub open(crate) spec fn update_keys_distinct(p: &PreparedInsertion) -> bool {
    forall|a: int, b: int|
        0 <= a < b < p.updates@.len() ==> !((#[trigger] p.updates@[a]).0 == (
        #[trigger] p.updates@[b]).0 && p.updates@[a].1 == p.updates@[b].1)
}

/// The inserted node's list for layer `l` is within the degree budget,
/// duplicate-free and free of self-loops, and every member has a staged
/// update at this layer whose candidates include the inserted node — the
/// attempted reverse edge, which also grows the member's stored layers up
/// to `l` during commit.
pub open(crate) spec fn new_list_wf(g: &Graph, p: &PreparedInsertion, l: int) -> bool {
    let nn = p.node.node;
    let s = p.new_node_neighbours@[l]@;
    &&& s.len() <= g.spec_params().max_connections
    &&& ids_distinct(s)
    &&& forall|k: int|
        0 <= k < s.len() ==> {
            let c = #[trigger] s[k];
            &&& c != nn
            &&& g.has_node(c as int)
            &&& staged_has(p.updates@, c, l, nn)
        }
}

/// Entry-point conditions between application and commit: the entry point
/// (still the one from before the insertion) names a stored node whose level
/// is maximal among all nodes but possibly the inserted one, and the
/// promotion flag is set exactly when the inserted node's level exceeds it.
pub open(crate) spec fn staged_entry_wf(g: &Graph, p: &PreparedInsertion) -> bool {
    match g.spec_entry() {
        Some(e) => {
            &&& e.node != p.node.node
            &&& g.has_node(e.node as int)
            &&& e.level <= g.top_level(e.node as int)
            &&& e.level <= g.spec_params().max_level
            &&& (p.promote_entry <==> p.node.level > e.level)
        },
        None => p.promote_entry && (forall|i: int| i != p.node.node ==> !g.has_node(i)),
    }
}

/// What `apply_insertion` stages, stated against the graph as it stands
/// right after the new node's attachment.
pub open(crate) spec fn prepared_wf(g: &Graph, p: &PreparedInsertion) -> bool {
    &&& p.node.level <= g.spec_params().max_level
    &&& g.has_node(p.node.node as int)
    &&& g.top_level(p.node.node as int) == p.node.level
    &&& p.new_node_neighbours@.len() == p.node.level + 1
    &&& forall|l: int| 0 <= l <= p.node.level ==> new_list_wf(g, p, l)
    &&& update_keys_distinct(p)
    &&& forall|u: int| 0 <= u < p.updates@.len() ==> update_wf(g, p, u)
    &&& staged_entry_wf(g, p)
}

/// A scheduled trim job answers exactly one staged update: same key, same
/// candidates up to the reordering done by `prioritise`, and a candidate
/// list that exceeds the degree budget.
pub open(crate) spec fn trim_job_wf(
    g: &Graph,
    p: &PreparedInsertion,
    job: crate::hnsw::node::TrimJob,
) -> bool {
    &&& job.ctx.max_connections == g.spec_params().max_connections
    &&& job.candidates@.len() > g.spec_params().max_connections
    &&& exists|u: int|
        0 <= u < p.updates@.len() && (#[trigger] p.updates@[u]).0 == job.node && p.updates@[u].1
            == job.ctx.level && job.candidates@ == p.updates@[u].2@
}

/// Every staged update whose candidate list exceeds the degree budget has a
/// scheduled trim job answering it.
pub open(crate) spec fn jobs_cover(
    g: &Graph,
    p: &PreparedInsertion,
    jobs: Seq<crate::hnsw::node::TrimJob>,
) -> bool {
    forall|u: int|
        0 <= u < p.updates@.len() && (#[trigger] p.updates@[u]).2@.len()
            > g.spec_params().max_connections ==> covered(jobs, p.updates@[u].0, p.updates@[u].1 as int)
}

/// A trim result is within the degree budget, duplicate-free, and keeps only
/// candidates of the staged update it answers.
pub open(crate) spec fn trim_result_wf(g: &Graph, p: &PreparedInsertion, tr: TrimResult) -> bool {
    &&& tr.neighbours@.len() <= g.spec_params().max_connections
    &&& ids_distinct(tr.neighbours@)
    &&& exists|u: int|
        0 <= u < p.updates@.len() && (#[trigger] p.updates@[u]).0 == tr.node && p.updates@[u].1
            == tr.level && (forall|k: int|
            0 <= k < tr.neighbours@.len() ==> p.updates@[u].2@.contains(
                #[trigger] tr.neighbours@[k],
            ))
}

/// No two trim results answer the same `(node, layer)` key.
pub open(crate) spec fn trim_keys_distinct(trims: Seq<TrimResult>) -> bool {
    forall|a: int, b: int|
        0 <= a < b < trims.len() ==> !((#[trigger] trims[a]).node == (#[trigger] trims[b]).node
            && trims[a].level == trims[b].level)
}

/// Every staged update whose candidate list exceeds the degree budget has a
/// trim result answering it.
pub open(crate) spec fn trims_cover(g: &Graph, p: &PreparedInsertion, trims: Seq<TrimResult>) -> bool {
    forall|u: int|
        0 <= u < p.updates@.len() && (#[trigger] p.updates@[u]).2@.len()
            > g.spec_params().max_connections ==> trim_covered(
            trims,
            p.updates@[u].0,
            p.updates@[u].1 as int,
        )
}

/// The list that commit writes for the staged update at index `u`: the
/// matching trim result where one exists, the untrimmed candidates
/// otherwise.
pub open(crate) spec fn written_list(p: &PreparedInsertion, trims: Seq<TrimResult>, u: int) -> Seq<
    usize,
> {
    let id = p.updates@[u].0;
    let lvl = p.updates@[u].1;
    if exists|t: int|
        0 <= t < trims.len() && (#[trigger] trims[t]).node == id && trims[t].level == lvl {
        let t = choose|t: int|
            0 <= t < trims.len() && (#[trigger] trims[t]).node == id && trims[t].level == lvl;
        trims[t].neighbours@
    } else {
        p.updates@[u].2@
    }
}

/// Some update with index below `u` targets the pair `(i, l)`.
pub open(crate) spec fn touched_before(p: &PreparedInsertion, u: int, i: int, l: int) -> bool {
    exists|u2: int| 0 <= u2 < u && (#[trigger] p.updates@[u2]).0 == i && p.updates@[u2].1 == l
}

/// Index of the first trim result answering `(node, level)`.
fn find_trim(trims: &Vec<TrimResult>, node: usize, level: usize) -> (r: Option<usize>)
    ensures
        r matches Some(t) ==> t < trims@.len() && trims@[t as int].node == node
            && trims@[t as int].level == level,
        r is None <==> (forall|t: int|
            0 <= t < trims@.len() ==> !((#[trigger] trims@[t]).node == node && trims@[t].level
                == level)),
{
    let mut k: usize = 0;
    while k < trims.len()
        invariant
            k <= trims@.len(),
            forall|t: int|
                0 <= t < k ==> !((#[trigger] trims@[t]).node == node && trims@[t].level == level),
        decreases trims@.len() - k,
    {
        if trims[k].node == node && trims[k].level == level {
            return Some(k);
        }
        k = k + 1;
    }
    None
}

/// The pair `(i, l)` is neither a layer of the inserted node nor the key of
/// a staged update: commit leaves such lists unchanged.
pub open(crate) spec fn untouched_by_commit(p: &PreparedInsertion, i: int, l: int) -> bool {
    &&& !(i == p.node.node && 0 <= l <= p.node.level)
    &&& forall|u: int|
        0 <= u < p.updates@.len() ==> !((#[trigger] p.updates@[u]).0 == i && p.updates@[u].1 == l)
}

/// Builds the per-layer candidate lists of an insertion plan: every layer
/// from 0 up to `level` holds the same list — the first `limit` entries of
/// the sorted candidates, or all of them when fewer exist.
fn build_plan(scored: &Vec<Neighbour>, level: usize, limit: usize) -> (plan: InsertionPlan)
    requires
        level < usize::MAX,
    ensures
        plan.layers@.len() == level + 1,
        forall|li: int|
            0 <= li < plan.layers@.len() ==> (#[trigger] plan.layers@[li]).level == li
                && plan.layers@[li].neighbours@ == scored@.subrange(
                0,
                if limit < scored@.len() {
                    limit as int
                } else {
                    scored@.len() as int
                },
            ),
{
    let take = if limit < scored.len() {
        limit
    } else {
        scored.len()
    };
    let mut layers: Vec<LayerPlan> = Vec::new();
    let mut level_i: usize = 0;
    while level_i < level + 1
        invariant
            level < usize::MAX,
            take == if limit < scored@.len() {
                limit as int
            } else {
                scored@.len() as int
            },
            take <= scored@.len(),
            layers@.len() == level_i,
            level_i <= level + 1,
            forall|li: int|
                0 <= li < layers@.len() ==> (#[trigger] layers@[li]).level == li
                    && layers@[li].neighbours@ == scored@.subrange(0, take as int),
        decreases level + 1 - level_i,
    {
        let mut taken: Vec<Neighbour> = Vec::new();
        let mut j: usize = 0;
        while j < take
            invariant
                j <= take,
                take <= scored@.len(),
                taken@ == scored@.subrange(0, j as int),
            decreases take - j,
        {
            taken.push(scored[j]);
            proof {
                assert(taken@ =~= scored@.subrange(0, j + 1));
            }
            j = j + 1;
        }
        layers.push(LayerPlan { level: level_i, neighbours: taken });
        level_i = level_i + 1;
    }
    InsertionPlan { layers }
}

/// Attaching a node while leaving every other node untouched preserves
/// entry maximality for the untouched nodes.
pub(crate) proof fn lemma_maximal_after_attach(pre: &Graph, post: &Graph, nn: int)
    requires
        pre.entry_maximal(),
        post.spec_entry() == pre.spec_entry(),
        forall|i: int| i != nn ==> (post.has_node(i) <==> pre.has_node(i)),
        forall|i: int| i != nn && pre.has_node(i) ==> post.node_layers(i) == pre.node_layers(i),
    ensures
        post.entry_maximal_except(nn),
{
    match post.spec_entry() {
        Some(e) => {
            assert forall|i: int|
                i != nn && post.has_node(i) implies post.top_level(i) <= e.level by {
                assert(pre.has_node(i));
                assert(post.node_layers(i) == pre.node_layers(i));
                assert(pre.top_level(i) <= e.level);
            }
        },
        None => {},
    }
}

/// Backing graph for the HNSW index.
#[derive(Debug)]
pub struct Graph {
    pub(crate) params: HnswParams,
    pub(crate) nodes: Vec<Option<Node>>,
    pub(crate) entry: Option<EntryPoint>,
    pub(crate) count: usize,
}

impl Graph {
    /// The configured parameters.
    pub open(crate) spec fn spec_params(&self) -> HnswParams {
        self.params
    }

    /// The current entry point.
    pub open(crate) spec fn spec_entry(&self) -> Option<EntryPoint> {
        self.entry
    }

    /// The stored node count.
    pub open(crate) spec fn spec_count(&self) -> usize {
        self.count
    }

    /// Length of the (partly unoccupied) node table.
    pub open(crate) spec fn table_len(&self) -> nat {
        self.nodes@.len()
    }

    /// Every slot of `other`'s table except `node` holds the same value in
    /// `self`, and slots past `other`'s table (if the table grew) other than
    /// `node` are empty.
    pub open(crate) spec fn preserves_slots_except(&self, other: &Graph, node: int) -> bool {
        &&& forall|i: int|
            0 <= i < other.nodes@.len() && i != node ==> self.nodes@[i] == other.nodes@[i]
        &&& forall|i: int|
            other.nodes@.len() <= i < self.nodes@.len() && i != node ==> (
            #[trigger] self.nodes@[i]) is None
    }

    /// The two graphs hold the same parameters, entry point, count and node
    /// table: nothing observable distinguishes them.
    pub open(crate) spec fn same_state(&self, other: &Graph) -> bool {
        &&& self.params == other.params
        &&& self.entry == other.entry
        &&& self.count == other.count
        &&& self.nodes@.len() == other.nodes@.len()
        &&& forall|i: int| 0 <= i < self.nodes@.len() ==> self.nodes@[i] == other.nodes@[i]
    }

    /// Number of stored nodes other than `node`.
    pub open(crate) spec fn others_count(&self, node: int) -> int {
        self.spec_count() - if self.has_node(node) {
            1int
        } else {
            0int
        }
    }

    /// The slot `i` holds a node.
    pub open(crate) spec fn has_node(&self, i: int) -> bool {
        0 <= i < self.nodes@.len() && self.nodes@[i] is Some
    }

    /// The per-layer neighbour lists of node `i`.
    pub open(crate) spec fn node_layers(&self, i: int) -> Seq<Seq<usize>> {
        self.nodes@[i]->0@
    }

    /// The highest layer node `i` stores a list for.
    pub open(crate) spec fn top_level(&self, i: int) -> int {
        self.node_layers(i).len() - 1
    }

    /// The neighbour list of node `i` at layer `l` (empty if not stored).
    pub open(crate) spec fn layer(&self, i: int, l: int) -> Seq<usize> {
        if 0 <= l < self.node_layers(i).len() {
            self.node_layers(i)[l]
        } else {
            Seq::empty()
        }
    }

    /// A single neighbour list is well formed: within the degree budget,
    /// free of duplicates and self-loops, and every listed node exists and
    /// stores a list at this layer.
    pub open(crate) spec fn list_wf(&self, i: int, l: int) -> bool {
        let s = self.layer(i, l);
        &&& s.len() <= self.params.max_connections
        &&& ids_distinct(s)
        &&& forall|k: int|
            0 <= k < s.len() ==> (#[trigger] s[k]) != i && self.has_node(s[k] as int) && l
                <= self.top_level(s[k] as int)
    }

    /// A node stores between 1 and `max_level + 1` lists, all well formed.
    pub open(crate) spec fn node_wf(&self, i: int) -> bool {
        &&& 1 <= self.node_layers(i).len() <= self.params.max_level + 1
        &&& forall|l: int| 0 <= l < self.node_layers(i).len() ==> self.list_wf(i, l)
    }

    /// Everything but the entry-point conditions: valid parameters, a correct
    /// occupancy count, and well-formed adjacency for every stored node.
    pub open(crate) spec fn wf_nodes(&self) -> bool {
        &&& self.params.wf()
        &&& self.count == occupied(self.nodes@)
        &&& forall|i: int| self.has_node(i) ==> self.node_wf(i)
    }

    /// The entry point names a stored node and stays within `max_level`; an
    /// absent entry point means an empty graph. That the entry level is also
    /// maximal among stored nodes is tracked separately by `entry_maximal`:
    /// an insertion that fails after attaching its node leaves the graph
    /// valid but may leave that node above the entry point.
    pub open(crate) spec fn entry_wf(&self) -> bool {
        match self.entry {
            Some(e) => self.has_node(e.node as int) && e.level <= self.top_level(e.node as int)
                && e.level <= self.params.max_level,
            None => forall|i: int| !self.has_node(i),
        }
    }

    /// The entry point's level is maximal among all stored nodes. This holds
    /// after every successful insertion.
    pub open(crate) spec fn entry_maximal(&self) -> bool {
        match self.entry {
            Some(e) => forall|i: int| self.has_node(i) ==> self.top_level(i) <= e.level,
            None => true,
        }
    }

    /// `entry_maximal`, except that the node `nn` is exempt: the state
    /// between attaching a node and committing its insertion.
    pub open(crate) spec fn entry_maximal_except(&self, nn: int) -> bool {
        match self.entry {
            Some(e) => forall|i: int| i != nn && self.has_node(i) ==> self.top_level(i) <= e.level,
            None => true,
        }
    }

    /// Full graph invariant.
    pub open(crate) spec fn wf(&self) -> bool {
        self.wf_nodes() && self.entry_wf()
    }

    /// Every stored node of a well-formed graph keeps, at every layer, a
    /// neighbour list of at most `max_connections` distinct entries, and
    /// never lists itself.
    pub proof fn lemma_wf_degree_and_no_self_loops(&self, i: int, l: int)
        requires
            self.wf(),
            self.has_node(i),
        ensures
            self.layer(i, l).len() <= self.spec_params().max_connections,
            ids_distinct(self.layer(i, l)),
            forall|k: int| 0 <= k < self.layer(i, l).len() ==> #[trigger] self.layer(i, l)[k] != i,
    {
        if 0 <= l < self.node_layers(i).len() {
            assert(self.node_wf(i));
            assert(self.list_wf(i, l));
        } else {
            assert(self.layer(i, l) =~= Seq::<usize>::empty());
        }
    }

    /// Well-formedness carries over between graphs with equal node tables.
    pub(crate) proof fn lemma_same_state_wf(self, other: Graph)
        requires
            self.params == other.params,
            self.count == other.count,
            self.nodes@.len() == other.nodes@.len(),
            forall|i: int| 0 <= i < self.nodes@.len() ==> self.nodes@[i] == other.nodes@[i],
            other.wf_nodes(),
        ensures
            self.wf_nodes(),
            self.entry == other.entry && other.entry_wf() ==> self.entry_wf(),
    {
        assert(self.nodes@ =~= other.nodes@);
        assert forall|i: int| self.has_node(i) implies self.node_wf(i) by {
            assert(other.has_node(i));
            assert(other.node_wf(i));
            assert(self.node_layers(i) == other.node_layers(i));
            assert forall|l: int|
                0 <= l < self.node_layers(i).len() implies self.list_wf(i, l) by {
                assert(other.list_wf(i, l));
                let s = self.layer(i, l);
                assert(s == other.layer(i, l));
                assert forall|k: int|
                    0 <= k < s.len() implies (#[trigger] s[k]) != i && self.has_node(s[k] as int)
                        && l <= self.top_level(s[k] as int) by {
                    assert(other.has_node(s[k] as int));
                    assert(self.node_layers(s[k] as int) == other.node_layers(s[k] as int));
                }
            }
        }
        if self.entry == other.entry && other.entry_wf() {
            match self.entry {
                Some(e) => {
                    assert(other.has_node(e.node as int));
                    assert(self.node_layers(e.node as int) == other.node_layers(e.node as int));
                },
                None => {
                    assert forall|i: int| !self.has_node(i) by {
                        assert(!other.has_node(i));
                    }
                },
            }
        }
    }

    /// Creates a new graph with optional preallocated capacity.
    pub fn new(params: HnswParams, capacity: usize) -> (g: Self)
        requires
            params.wf(),
        ensures
            g.wf(),
            g.spec_params() == params,
            g.spec_entry() is None,
            g.spec_count() == 0,
            forall|i: int| !g.has_node(i),
            g.table_len() == capacity,
    {
        let mut nodes: Vec<Option<Node>> = Vec::new();
        while nodes.len() < capacity
            invariant
                nodes@.len() <= capacity,
                occupied(nodes@) == 0,
                forall|i: int| 0 <= i < nodes@.len() ==> (#[trigger] nodes@[i]) is None,
            decreases capacity - nodes@.len(),
        {
            proof {
                lemma_occupied_push(nodes@, None);
            }
            nodes.push(None);
        }
        Graph { params, nodes, entry: None, count: 0 }
    }

    /// Returns the current entry point.
    pub fn entry(&self) -> (r: Option<EntryPoint>)
        ensures
            r == self.spec_entry(),
    {
        self.entry
    }

    /// Number of nodes stored in the graph.
    pub fn len(&self) -> (r: usize)
        ensures
            r == self.spec_count(),
    {
        self.count
    }

    /// Allocates space for a node at `level`.
    ///
    /// Fails with `InvalidParameters` if `level` exceeds `max_level`, and
    /// with `DuplicateNode` if the slot is already occupied. On success the
    /// backing table has grown to cover `node`, which now stores `level + 1`
    /// empty neighbour lists.
    pub fn attach_node(&mut self, node: usize, level: usize) -> (r: Result<(), HnswError>)
        requires
            old(self).wf_nodes(),
            node < usize::MAX,
        ensures
            final(self).spec_params() == old(self).spec_params(),
            final(self).spec_entry() == old(self).spec_entry(),
            final(self).wf_nodes(),
            r is Ok <==> level <= old(self).spec_params().max_level && !old(self).has_node(
                node as int,
            ),
            r is Err ==> final(self).same_state(old(self)),
            r matches Err(e) ==> if level > old(self).spec_params().max_level {
                e is InvalidParameters
            } else {
                e matches HnswError::DuplicateNode { node: n } && n == node
            },
            r is Ok ==> {
                &&& final(self).spec_count() == old(self).spec_count() + 1
                &&& final(self).table_len() == if node + 1 > old(self).table_len() {
                    node + 1
                } else {
                    old(self).table_len() as int
                }
                &&& final(self).preserves_slots_except(old(self), node as int)
                &&& final(self).has_node(node as int)
                &&& final(self).node_layers(node as int).len() == level + 1
                &&& forall|l: int|
                    final(self).layer(node as int, l) == Seq::<usize>::empty()
                &&& forall|i: int|
                    i != node ==> (final(self).has_node(i) <==> old(self).has_node(i))
                &&& forall|i: int|
                    i != node && old(self).has_node(i) ==> final(self).node_layers(i) == old(
                        self,
                    ).node_layers(i)
            },
    {
        if level > self.params.max_level {
            return Err(
                HnswError::InvalidParameters { reason: "level exceeds max_level".to_owned() },
            );
        }
        // A node at `level` stores `level + 1` lists; `level` is within
        // `max_level`, which `HnswParams::wf` bounds below `usize::MAX`.
        let ghost pre = *self;
        while self.nodes.len() < node + 1
            invariant
                node < usize::MAX,
                self.params == pre.params,
                self.entry == pre.entry,
                self.count == pre.count,
                pre.nodes@.len() <= self.nodes@.len(),
                self.nodes@.len() <= node + 1 || self.nodes@.len() == pre.nodes@.len(),
                forall|i: int|
                    0 <= i < pre.nodes@.len() ==> #[trigger] self.nodes@[i] == pre.nodes@[i],
                forall|i: int|
                    pre.nodes@.len() <= i < self.nodes@.len() ==> (#[trigger] self.nodes@[i])
                        is None,
                occupied(self.nodes@) == occupied(pre.nodes@),
            decreases node + 1 - self.nodes@.len(),
        {
            proof {
                lemma_occupied_push(self.nodes@, None);
            }
            self.nodes.push(None);
        }
        if self.nodes[node].is_some() {
            proof {
                assert(node < pre.nodes@.len());
                assert(self.nodes@ =~= pre.nodes@);
                self.lemma_same_state_wf(pre);
            }
            return Err(HnswError::DuplicateNode { node });
        }
        let ghost grown = *self;
        let n = Node::new(level);
        proof {
            assert(self.nodes@[node as int] is None);
            lemma_occupied_slot_free(self.nodes@, node as int);
            lemma_occupied_update(self.nodes@, node as int, Some(n));
        }
        let slot = &mut self.nodes[node];
        *slot = Some(n);
        self.count = self.count + 1;
        proof {
            assert(self.nodes@ =~= grown.nodes@.update(node as int, Some(n)));
            assert(self.node_layers(node as int) == n@);
            assert forall|l: int| self.layer(node as int, l) == Seq::<usize>::empty() by {
                if 0 <= l < n@.len() {
                    assert(n.layer(l) == Seq::<usize>::empty());
                }
            }
            assert forall|i: int| self.has_node(i) implies self.node_wf(i) by {
                if i != node {
                    assert(pre.has_node(i));
                    assert(pre.node_wf(i));
                    assert(self.node_layers(i) == pre.node_layers(i));
                    assert forall|l: int|
                        0 <= l < self.node_layers(i).len() implies self.list_wf(i, l) by {
                        assert(pre.list_wf(i, l));
                        let s = self.layer(i, l);
                        assert(s == pre.layer(i, l));
                        assert forall|k: int|
                            0 <= k < s.len() implies (#[trigger] s[k]) != i && self.has_node(
                            s[k] as int,
                        ) && l <= self.top_level(s[k] as int) by {
                            assert(pre.has_node(s[k] as int));
                            assert(s[k] != node);
                            assert(self.node_layers(s[k] as int) == pre.node_layers(s[k] as int));
                        }
                    }
                } else {
                    assert(self.node_layers(i).len() == level + 1);
                    assert forall|l: int|
                        0 <= l < self.node_layers(i).len() implies self.list_wf(i, l) by {
                        assert(self.layer(i, l) == Seq::<usize>::empty());
                    }
                }
            }
        }
        Ok(())
    }

    /// Removes the node a failed insertion had attached, restoring the
    /// graph observed before the attachment: the slot is cleared, a grown
    /// table is cut back, and the count is decremented.
    fn rollback_attach(&mut self, node: usize, prev_len: usize)
        requires
            old(self).wf_nodes(),
            old(self).has_node(node as int),
            prev_len <= old(self).table_len(),
            old(self).table_len() == if node + 1 > prev_len {
                node + 1
            } else {
                prev_len as int
            },
            forall|i: int|
                prev_len <= i < old(self).table_len() && i != node ==> !old(self).has_node(i),
            forall|i: int, l: int|
                i != node && old(self).has_node(i) ==> !old(self).layer(i, l).contains(node),
            old(self).spec_entry() matches Some(e) && e.node != node && old(self).has_node(
                e.node as int,
            ) && e.level <= old(self).top_level(e.node as int) && e.level <= old(
                self,
            ).spec_params().max_level,
        ensures
            final(self).wf(),
            final(self).spec_params() == old(self).spec_params(),
            final(self).spec_entry() == old(self).spec_entry(),
            final(self).spec_count() == old(self).spec_count() - 1,
            final(self).table_len() == prev_len,
            !final(self).has_node(node as int),
            forall|i: int|
                0 <= i < prev_len && i != node ==> final(self).nodes@[i] == old(self).nodes@[i],
    {
        let ghost pre = *self;
        if node < prev_len {
            proof {
                lemma_occupied_update(self.nodes@, node as int, None);
            }
            let slot = &mut self.nodes[node];
            *slot = None;
            proof {
                assert(self.nodes@ =~= pre.nodes@.update(node as int, None));
            }
        } else {
            proof {
                assert forall|i: int|
                    prev_len <= i < self.nodes@.len() && i != node implies (
                #[trigger] self.nodes@[i]) is None by {
                    assert(!pre.has_node(i));
                }
                lemma_occupied_single_tail(self.nodes@, prev_len as int, node as int);
            }
            self.nodes.truncate(prev_len);
            proof {
                assert(self.nodes@ =~= pre.nodes@.subrange(0, prev_len as int));
            }
        }
        self.count = self.count - 1;
        proof {
            assert forall|i: int| self.has_node(i) implies self.node_wf(i) by {
                assert(self.nodes@[i] == pre.nodes@[i]);
                assert(pre.has_node(i));
                assert(i != node);
                assert(pre.node_wf(i));
                assert(self.node_layers(i) == pre.node_layers(i));
                assert forall|l: int|
                    0 <= l < self.node_layers(i).len() implies self.list_wf(i, l) by {
                    assert(pre.list_wf(i, l));
                    let members = self.layer(i, l);
                    assert(members == pre.layer(i, l));
                    assert forall|k: int|
                        0 <= k < members.len() implies (#[trigger] members[k]) != i
                            && self.has_node(members[k] as int) && l <= self.top_level(
                        members[k] as int,
                    ) by {
                        assert(pre.has_node(members[k] as int));
                        if members[k] == node {
                            assert(pre.layer(i, l)[k] == node);
                            assert(pre.layer(i, l).contains(node));
                        }
                        assert(members[k] != node);
                        assert((members[k] as int) < prev_len);
                        assert(self.nodes@[members[k] as int] == pre.nodes@[members[k] as int]);
                        assert(self.node_layers(members[k] as int) == pre.node_layers(
                            members[k] as int,
                        ));
                    }
                }
            }
            match self.spec_entry() {
                Some(e) => {
                    assert((e.node as int) < prev_len);
                    assert(self.nodes@[e.node as int] == pre.nodes@[e.node as int]);
                    assert(self.node_layers(e.node as int) == pre.node_layers(e.node as int));
                },
                None => {},
            }
        }
    }

    /// Inserts the first node into an empty graph.
    ///
    /// Fails with `InvalidParameters` if an entry point already exists;
    /// otherwise attaches the node and sets it as entry point at its sampled
    /// level.
    pub fn insert_first(&mut self, ctx: NodeContext) -> (r: Result<(), HnswError>)
        requires
            old(self).wf(),
            ctx.node < usize::MAX,
        ensures
            final(self).spec_params() == old(self).spec_params(),
            r is Ok <==> old(self).spec_entry() is None && ctx.level <= old(
                self,
            ).spec_params().max_level,
            r is Err ==> final(self).same_state(old(self)),
            r matches Err(e) ==> e is InvalidParameters,
            r is Ok ==> {
                &&& final(self).wf()
                &&& final(self).entry_maximal()
                &&& final(self).spec_entry() == Some(
                    EntryPoint { node: ctx.node, level: ctx.level },
                )
                &&& final(self).spec_count() == old(self).spec_count() + 1
                &&& final(self).has_node(ctx.node as int)
                &&& final(self).top_level(ctx.node as int) == ctx.level
                &&& forall|l: int| final(self).layer(ctx.node as int, l) == Seq::<usize>::empty()
            },
    {
        if self.entry.is_some() {
            return Err(
                HnswError::InvalidParameters {
                    reason: "graph already has an entry point".to_owned(),
                },
            );
        }
        match self.attach_node(ctx.node, ctx.level) {
            Ok(()) => {},
            Err(e) => {
                return Err(e);
            },
        }
        let ghost mid = *self;
        self.entry = Some(EntryPoint { node: ctx.node, level: ctx.level });
        proof {
            self.lemma_same_state_wf(mid);
            assert(self.node_layers(ctx.node as int) == mid.node_layers(ctx.node as int));
            assert forall|i: int| self.has_node(i) implies self.top_level(i) <= ctx.level by {
                assert(mid.has_node(i));
                if i != ctx.node {
                    assert(!old(self).has_node(i));
                }
            }
            assert forall|l: int|
                self.layer(ctx.node as int, l) == Seq::<usize>::empty() by {
                assert(mid.layer(ctx.node as int, l) == Seq::<usize>::empty());
            }
        }
        Ok(())
    }

    /// Replaces the neighbour list of `node` at `level`, growing the node's
    /// stored layers if needed. Used only while committing an insertion.
    fn set_node_layer(&mut self, node: usize, level: usize, list: Vec<usize>) -> (r: Result<
        (),
        HnswError,
    >)
        requires
            level < usize::MAX,
        ensures
            final(self).spec_params() == old(self).spec_params(),
            final(self).spec_entry() == old(self).spec_entry(),
            final(self).spec_count() == old(self).spec_count(),
            final(self).table_len() == old(self).table_len(),
            occupied(final(self).nodes@) == occupied(old(self).nodes@),
            r is Ok <==> old(self).has_node(node as int),
            r is Err ==> final(self).same_state(old(self)),
            r is Ok ==> {
                &&& forall|i: int| final(self).has_node(i) <==> old(self).has_node(i)
                &&& forall|i: int|
                    i != node && old(self).has_node(i) ==> final(self).node_layers(i) == old(
                        self,
                    ).node_layers(i)
                &&& final(self).node_layers(node as int).len() == if level < old(self).node_layers(
                    node as int,
                ).len() {
                    old(self).node_layers(node as int).len() as int
                } else {
                    level + 1
                }
                &&& forall|l: int|
                    l != level ==> final(self).layer(node as int, l) == old(self).layer(
                        node as int,
                        l,
                    )
                &&& final(self).layer(node as int, level as int) == list@
            },
    {
        if node >= self.nodes.len() {
            return Err(
                HnswError::GraphInvariantViolation {
                    message: "node missing during neighbour update".to_owned(),
                },
            );
        }
        let ghost pre = *self;
        let slot = &mut self.nodes[node];
        let taken = slot.take();
        match taken {
            Some(mut n) => {
                let ghost n0 = n;
                n.set_layer(level, list);
                let ghost n1 = n;
                *slot = Some(n);
                proof {
                    assert(pre.nodes@[node as int] == Some(n0));
                    assert(self.nodes@ =~= pre.nodes@.update(node as int, Some(n1)));
                    lemma_occupied_update(pre.nodes@, node as int, Some(n1));
                    assert(self.node_layers(node as int) == n1@);
                    assert forall|l: int|
                        l != level implies self.layer(node as int, l) == pre.layer(
                        node as int,
                        l,
                    ) by {
                        assert(n1.layer(l) == n0.layer(l));
                    }
                    assert(self.layer(node as int, level as int) == n1.layer(level as int));
                }
                Ok(())
            },
            None => {
                *slot = None;
                proof {
                    assert(self.nodes@ =~= pre.nodes@);
                    assert(occupied(self.nodes@) == occupied(pre.nodes@));
                }
                Err(
                    HnswError::GraphInvariantViolation {
                        message: "node missing during neighbour update".to_owned(),
                    },
                )
            },
        }
    }

    /// Plans neighbours for the new node by scanning existing vertices:
    /// distances from the new node to every stored node are computed, sorted
    /// ascending, and the closest `max_connections` become the candidate
    /// list of every layer from 0 up to the new node's level.
    pub(crate) fn plan_insertion<D: DataSource>(
        &self,
        ctx: NodeContext,
        params: &HnswParams,
        source: &D,
    ) -> (r: Result<InsertionPlan, HnswError>)
        requires
            self.wf(),
            ctx.level < usize::MAX,
            *params == self.spec_params(),
        ensures
            self.spec_entry() is None ==> r is Err,
            r matches Err(e) ==> e is InvalidParameters || e is DataSource,
            r matches Ok(plan) ==> {
                &&& plan_wf(plan, self, ctx.node, self.spec_params().max_connections as int)
                &&& self.spec_entry() is Some
                &&& plan.layers@.len() == if exists|i: int|
                    i != ctx.node && self.has_node(i) {
                    ctx.level + 1
                } else {
                    0
                }
                &&& plan.layers@.len() == if self.others_count(ctx.node as int) > 0 {
                    ctx.level + 1
                } else {
                    0
                }
                &&& (forall|li: int, lj: int|
                    0 <= li < plan.layers@.len() && 0 <= lj < plan.layers@.len() ==> (
                    #[trigger] plan.layers@[li]).neighbours@ == (
                    #[trigger] plan.layers@[lj]).neighbours@)
                &&& (forall|li: int|
                    0 <= li < plan.layers@.len() ==> (#[trigger] plan.layers@[li]).neighbours@.len()
                        == if self.others_count(ctx.node as int) < self.spec_params().max_connections {
                        self.others_count(ctx.node as int)
                    } else {
                        self.spec_params().max_connections as int
                    })
            },
    {
        if self.entry.is_none() {
            return Err(
                HnswError::InvalidParameters {
                    reason: "cannot plan insertion without an entry point".to_owned(),
                },
            );
        }
        let mut candidate_ids: Vec<usize> = Vec::new();
        let mut node_id: usize = 0;
        while node_id < self.nodes.len()
            invariant
                node_id <= self.table_len(),
                ids_distinct(candidate_ids@),
                forall|j: int|
                    0 <= j < candidate_ids@.len() ==> self.has_node(
                        #[trigger] candidate_ids@[j] as int,
                    ) && candidate_ids@[j] != ctx.node && candidate_ids@[j] < node_id,
                forall|i: int|
                    0 <= i < node_id && self.has_node(i) && i != ctx.node
                        ==> candidate_ids@.contains(i as usize),
                candidate_ids@.len() + (if (ctx.node as int) < node_id && self.has_node(
                    ctx.node as int,
                ) {
                    1int
                } else {
                    0int
                }) == occupied(self.nodes@.subrange(0, node_id as int)),
            decreases self.table_len() - node_id,
        {
            if self.nodes[node_id].is_some() && node_id != ctx.node {
                let ghost before = candidate_ids@;
                candidate_ids.push(node_id);
                proof {
                    assert forall|i: int|
                        0 <= i < node_id + 1 && self.has_node(i) && i != ctx.node
                            implies candidate_ids@.contains(i as usize) by {
                        if i < node_id {
                            let w = choose|w: int|
                                0 <= w < before.len() && before[w] == i as usize;
                            assert(candidate_ids@[w] == i as usize);
                        } else {
                            assert(candidate_ids@[before.len() as int] == node_id);
                        }
                    }
                }
            }
            proof {
                assert(self.nodes@.subrange(0, node_id + 1).drop_last() =~= self.nodes@.subrange(
                    0,
                    node_id as int,
                ));
                assert(self.nodes@.subrange(0, node_id + 1).last() == self.nodes@[node_id as int]);
            }
            node_id = node_id + 1;
        }
        proof {
            assert(self.nodes@.subrange(0, self.table_len() as int) =~= self.nodes@);
        }
        if candidate_ids.is_empty() {
            proof {
                if exists|i: int| i != ctx.node && self.has_node(i) {
                    let i = choose|i: int| i != ctx.node && self.has_node(i);
                    assert(candidate_ids@.contains(i as usize));
                }
                assert(self.others_count(ctx.node as int) == 0);
            }
            return Ok(InsertionPlan { layers: Vec::new() });
        }
        let distances = match validate_batch_distances(source, ctx.node, candidate_ids.as_slice()) {
            Ok(d) => d,
            Err(e) => {
                return Err(e);
            },
        };
        let mut scored: Vec<Neighbour> = Vec::new();
        let mut i: usize = 0;
        while i < candidate_ids.len() && i < distances.len()
            invariant
                i <= candidate_ids@.len(),
                i <= distances@.len(),
                candidate_ids@.len() == distances@.len(),
                scored@.len() == i,
                ids_distinct(candidate_ids@),
                forall|j: int|
                    0 <= j < candidate_ids@.len() ==> self.has_node(
                        #[trigger] candidate_ids@[j] as int,
                    ) && candidate_ids@[j] != ctx.node,
                forall|j: int| 0 <= j < distances@.len() ==> (#[trigger] distances@[j]).finite,
                forall|j: int| 0 <= j < i ==> (#[trigger] scored@[j]).id == candidate_ids@[j],
                forall|j: int|
                    0 <= j < i ==> (#[trigger] scored@[j]).distance == distances@[j],
            decreases candidate_ids@.len() - i,
        {
            scored.push(Neighbour { id: candidate_ids[i], distance: distances[i] });
            i = i + 1;
        }
        let ghost scored0 = scored@;
        proof {
            assert forall|a: int, b: int|
                0 <= a < b < scored@.len() implies neighbour_ids(scored@)[a] != neighbour_ids(
                scored@,
            )[b] by {
                assert(scored@[a].id == candidate_ids@[a]);
                assert(scored@[b].id == candidate_ids@[b]);
            }
        }
        sort_by_distance(&mut scored);
        proof {
            lemma_permutation_keeps_ids_distinct(scored0, scored@);
            assert forall|j: int|
                0 <= j < scored@.len() implies (#[trigger] scored@[j]).distance.finite
                    && self.has_node(scored@[j].id as int) && scored@[j].id != ctx.node by {
                assert(scored@.contains(scored@[j]));
                assert(scored0.contains(scored@[j]));
                let w = choose|w: int| 0 <= w < scored0.len() && scored0[w] == scored@[j];
                assert(scored0[w].id == candidate_ids@[w]);
            }
        }
        let limit = params.max_connections();
        let plan = build_plan(&scored, ctx.level, limit);
        let ghost take: int = if limit < scored@.len() {
            limit as int
        } else {
            scored@.len() as int
        };
        proof {
            assert(self.has_node(candidate_ids@[0] as int) && candidate_ids@[0] != ctx.node);
            assert(candidate_ids@.len() == self.others_count(ctx.node as int)) by {
                if self.has_node(ctx.node as int) {
                    assert((ctx.node as int) < self.table_len());
                }
            }
            assert(scored@.len() == self.others_count(ctx.node as int));
            assert forall|li: int|
                0 <= li < plan.layers@.len() implies {
                let layer = #[trigger] plan.layers@[li];
                &&& layer.level == li
                &&& layer.neighbours@.len() <= self.spec_params().max_connections
                &&& sorted_by_distance(layer.neighbours@)
                &&& ids_distinct(neighbour_ids(layer.neighbours@))
                &&& forall|k: int|
                    0 <= k < layer.neighbours@.len() ==> {
                        let nb = #[trigger] layer.neighbours@[k];
                        nb.id != ctx.node && self.has_node(nb.id as int) && nb.distance.finite
                    }
            } by {
                let prefix = plan.layers@[li].neighbours@;
                assert(prefix == scored@.subrange(0, take));
                assert forall|a: int, b: int|
                    0 <= a < b < prefix.len() implies neighbour_ids(prefix)[a] != neighbour_ids(
                    prefix,
                )[b] by {
                    assert(prefix[a] == scored@[a]);
                    assert(prefix[b] == scored@[b]);
                    assert(neighbour_ids(scored@)[a] != neighbour_ids(scored@)[b]);
                }
                assert forall|k: int|
                    0 <= k < prefix.len() implies {
                    let nb = #[trigger] prefix[k];
                    nb.id != ctx.node && self.has_node(nb.id as int) && nb.distance.finite
                } by {
                    assert(prefix[k] == scored@[k]);
                }
            }
        }
        Ok(plan)
    }

    /// Commits prepared updates into the graph in one pass: the new node's
    /// per-layer lists are written wholesale, and each staged update is
    /// replaced either by its matching trim result or, if no trim was
    /// required, by the untrimmed candidate list. The entry point is
    /// promoted if the staging recorded a promotion; its level never
    /// decreases.
    #[verifier::loop_isolation(false)]
    pub(crate) fn commit_insertion(&mut self, prepared: PreparedInsertion, trims: Vec<TrimResult>) -> (r:
        Result<(), HnswError>)
        requires
            old(self).wf_nodes(),
            prepared_wf(old(self), &prepared),
            forall|t: int|
                0 <= t < trims@.len() ==> trim_result_wf(old(self), &prepared, #[trigger] trims@[t]),
            trim_keys_distinct(trims@),
            trims_cover(old(self), &prepared, trims@),
        ensures
            r is Ok,
            final(self).wf(),
            final(self).spec_params() == old(self).spec_params(),
            final(self).spec_count() == old(self).spec_count(),
            forall|i: int| final(self).has_node(i) <==> old(self).has_node(i),
            final(self).spec_entry() == if prepared.promote_entry {
                Some(EntryPoint { node: prepared.node.node, level: prepared.node.level })
            } else {
                old(self).spec_entry()
            },
            old(self).spec_entry() matches Some(e) ==> final(self).spec_entry() matches Some(e2)
                && e2.level >= e.level,
            old(self).entry_maximal_except(prepared.node.node as int) ==> final(self).entry_maximal(),
            final(self).node_layers(prepared.node.node as int).len() == prepared.node.level + 1,
            forall|l: int|
                0 <= l <= prepared.node.level ==> final(self).layer(prepared.node.node as int, l)
                    == prepared.new_node_neighbours@[l]@,
            forall|u: int|
                0 <= u < prepared.updates@.len() ==> final(self).layer(
                    (#[trigger] prepared.updates@[u]).0 as int,
                    prepared.updates@[u].1 as int,
                ) == written_list(&prepared, trims@, u),
            forall|i: int, l: int|
                untouched_by_commit(&prepared, i, l) && old(self).has_node(i) ==> final(self).layer(
                    i,
                    l,
                ) == old(self).layer(i, l),
    {
        let nn = prepared.node.node;
        let nl = prepared.node.level;
        let mut l: usize = 0;
        while l < prepared.new_node_neighbours.len()
            invariant
                l <= nl + 1,
                self.params == old(self).params,
                self.entry == old(self).entry,
                self.count == old(self).count,
                occupied(self.nodes@) == occupied(old(self).nodes@),
                forall|i: int| self.has_node(i) <==> old(self).has_node(i),
                self.node_layers(nn as int).len() == nl + 1,
                forall|ll: int|
                    0 <= ll < l ==> self.layer(nn as int, ll) == prepared.new_node_neighbours@[ll]@,
                forall|ll: int| l <= ll ==> self.layer(nn as int, ll) == old(self).layer(nn as int, ll),
                forall|i: int|
                    i != nn && old(self).has_node(i) ==> self.node_layers(i) == old(
                        self,
                    ).node_layers(i),
            decreases nl + 1 - l,
        {
            let list = copy_ids(prepared.new_node_neighbours[l].as_slice());
            match self.set_node_layer(nn, l, list) {
                Ok(()) => {},
                Err(e) => {
                    return Err(e);
                },
            }
            l = l + 1;
        }
        let mut u: usize = 0;
        while u < prepared.updates.len()
            invariant
                u <= prepared.updates@.len(),
                self.params == old(self).params,
                self.entry == old(self).entry,
                self.count == old(self).count,
                occupied(self.nodes@) == occupied(old(self).nodes@),
                forall|i: int| self.has_node(i) <==> old(self).has_node(i),
                self.node_layers(nn as int).len() == nl + 1,
                forall|ll: int|
                    0 <= ll <= nl ==> self.layer(nn as int, ll)
                        == prepared.new_node_neighbours@[ll]@,
                forall|u2: int|
                    0 <= u2 < u ==> self.layer(
                        (#[trigger] prepared.updates@[u2]).0 as int,
                        prepared.updates@[u2].1 as int,
                    ) == written_list(&prepared, trims@, u2),
                forall|u2: int|
                    0 <= u2 < u ==> self.node_layers(
                        (#[trigger] prepared.updates@[u2]).0 as int,
                    ).len() > prepared.updates@[u2].1,
                forall|i: int, ll: int|
                    i != nn && old(self).has_node(i) && !touched_before(&prepared, u as int, i, ll)
                        ==> self.layer(i, ll) == old(self).layer(i, ll),
                forall|i: int|
                    i != nn && old(self).has_node(i) ==> old(self).node_layers(i).len()
                        <= self.node_layers(i).len() && (self.node_layers(i).len() <= old(
                        self,
                    ).node_layers(i).len() || self.node_layers(i).len() <= nl + 1),
            decreases prepared.updates@.len() - u,
        {
            let id = prepared.updates[u].0;
            let lvl = prepared.updates[u].1;
            let list = match find_trim(&trims, id, lvl) {
                Some(t) => {
                    proof {
                        let t2 = choose|t2: int|
                            0 <= t2 < trims@.len() && (#[trigger] trims@[t2]).node == id
                                && trims@[t2].level == lvl;
                        if t2 != t {
                            if t2 < t {
                                assert(!(trims@[t2].node == trims@[t as int].node
                                    && trims@[t2].level == trims@[t as int].level));
                            } else {
                                assert(!(trims@[t as int].node == trims@[t2].node
                                    && trims@[t as int].level == trims@[t2].level));
                            }
                        }
                        assert(written_list(&prepared, trims@, u as int) == trims@[
                            t as int
                        ].neighbours@);
                    }
                    copy_ids(trims[t].neighbours.as_slice())
                },
                None => {
                    proof {
                        assert(written_list(&prepared, trims@, u as int) == prepared.updates@[
                            u as int
                        ].2@);
                    }
                    copy_ids(prepared.updates[u].2.as_slice())
                },
            };
            proof {
                assert(update_wf(old(self), &prepared, u as int));
                assert(prepared.updates@[u as int].0 == id && prepared.updates@[u as int].1 == lvl);
                assert(lvl <= prepared.node.level);
                assert(old(self).has_node(id as int));
                assert(self.has_node(id as int));
            }
            let ghost mid = *self;
            match self.set_node_layer(id, lvl, list) {
                Ok(()) => {},
                Err(e) => {
                    return Err(e);
                },
            }
            proof {
                assert(id != nn);
                assert(mid.has_node(nn as int));
                assert(self.node_layers(nn as int) == mid.node_layers(nn as int));
                assert forall|ll: int|
                    0 <= ll <= nl implies self.layer(nn as int, ll)
                        == prepared.new_node_neighbours@[ll]@ by {
                    assert(mid.layer(nn as int, ll) == prepared.new_node_neighbours@[ll]@);
                }
                assert forall|u2: int|
                    0 <= u2 < u + 1 implies self.layer(
                    (#[trigger] prepared.updates@[u2]).0 as int,
                    prepared.updates@[u2].1 as int,
                ) == written_list(&prepared, trims@, u2) by {
                    if u2 < u {
                        assert(!(prepared.updates@[u2].0 == prepared.updates@[u as int].0
                            && prepared.updates@[u2].1 == prepared.updates@[u as int].1));
                        if prepared.updates@[u2].0 == id {
                            assert(prepared.updates@[u2].1 != lvl);
                        } else {
                            assert(update_wf(old(self), &prepared, u2));
                            assert(old(self).has_node(prepared.updates@[u2].0 as int));
                            assert(mid.has_node(prepared.updates@[u2].0 as int));
                            assert(self.node_layers(prepared.updates@[u2].0 as int)
                                == mid.node_layers(prepared.updates@[u2].0 as int));
                        }
                    }
                }
                assert forall|u2: int|
                    0 <= u2 < u + 1 implies self.node_layers(
                    (#[trigger] prepared.updates@[u2]).0 as int,
                ).len() > prepared.updates@[u2].1 by {
                    if u2 < u && prepared.updates@[u2].0 != id {
                        assert(update_wf(old(self), &prepared, u2));
                        assert(old(self).has_node(prepared.updates@[u2].0 as int));
                        assert(mid.has_node(prepared.updates@[u2].0 as int));
                        assert(self.node_layers(prepared.updates@[u2].0 as int)
                            == mid.node_layers(prepared.updates@[u2].0 as int));
                    }
                }
                assert forall|i: int, ll: int|
                    i != nn && old(self).has_node(i) && !touched_before(
                    &prepared,
                    u + 1,
                    i,
                    ll,
                ) implies self.layer(i, ll) == old(self).layer(i, ll) by {
                    assert(!touched_before(&prepared, u as int, i, ll));
                    if i == id {
                        assert(ll != lvl);
                    } else if old(self).has_node(i) {
                        assert(mid.has_node(i));
                        assert(self.node_layers(i) == mid.node_layers(i));
                    }
                }
            }
            u = u + 1;
        }
        let ghost before_entry = *self;
        if prepared.promote_entry {
            self.entry = Some(EntryPoint { node: nn, level: nl });
        }
        proof {
            assert(self.nodes == before_entry.nodes);
            assert(occupied(self.nodes@) == occupied(old(self).nodes@));
            assert forall|i: int| self.has_node(i) == old(self).has_node(i) by {
                assert(before_entry.has_node(i) == old(self).has_node(i));
            }
            assert(self.node_layers(nn as int).len() == nl + 1) by {
                assert(before_entry.node_layers(nn as int).len() == nl + 1);
            }
            assert forall|ll: int|
                0 <= ll <= nl implies self.layer(nn as int, ll)
                    == prepared.new_node_neighbours@[ll]@ by {
                assert(before_entry.layer(nn as int, ll) == prepared.new_node_neighbours@[ll]@);
            }
            assert forall|u2: int|
                0 <= u2 < prepared.updates@.len() implies self.layer(
                (#[trigger] prepared.updates@[u2]).0 as int,
                prepared.updates@[u2].1 as int,
            ) == written_list(&prepared, trims@, u2) by {
                assert(before_entry.layer(
                    prepared.updates@[u2].0 as int,
                    prepared.updates@[u2].1 as int,
                ) == written_list(&prepared, trims@, u2));
            }
            assert forall|u2: int|
                0 <= u2 < prepared.updates@.len() implies self.node_layers(
                (#[trigger] prepared.updates@[u2]).0 as int,
            ).len() > prepared.updates@[u2].1 by {
                assert(before_entry.node_layers(prepared.updates@[u2].0 as int).len()
                    > prepared.updates@[u2].1);
            }
            assert forall|i: int, ll: int|
                i != nn && old(self).has_node(i) && !touched_before(
                &prepared,
                prepared.updates@.len() as int,
                i,
                ll,
            ) implies self.layer(i, ll) == old(self).layer(i, ll) by {
                assert(before_entry.layer(i, ll) == old(self).layer(i, ll));
            }
            assert forall|i: int|
                i != nn && old(self).has_node(i) implies old(self).node_layers(i).len()
                    <= self.node_layers(i).len() && (self.node_layers(i).len() <= old(
                self,
            ).node_layers(i).len() || self.node_layers(i).len() <= nl + 1) by {
                assert(old(self).node_layers(i).len() <= before_entry.node_layers(i).len() && (
                before_entry.node_layers(i).len() <= old(self).node_layers(i).len()
                    || before_entry.node_layers(i).len() <= nl + 1));
            }
            self.lemma_commit_wf(old(self), prepared, trims@);
        }
        Ok(())
    }

    /// After commit has written every staged list, the full graph invariant
    /// holds again. `pre` is the graph as it stood before commit (right
    /// after attachment).
    proof fn lemma_commit_wf(
        self,
        pre: &Graph,
        prepared: PreparedInsertion,
        trims: Seq<TrimResult>,
    )
        requires
            pre.wf_nodes(),
            prepared_wf(pre, &prepared),
            forall|t: int| 0 <= t < trims.len() ==> trim_result_wf(pre, &prepared, #[trigger] trims[t]),
            trim_keys_distinct(trims),
            trims_cover(pre, &prepared, trims),
            self.params == pre.params,
            self.count == pre.count,
            self.count == occupied(self.nodes@),
            forall|i: int| self.has_node(i) <==> pre.has_node(i),
            self.node_layers(prepared.node.node as int).len() == prepared.node.level + 1,
            forall|ll: int|
                0 <= ll <= prepared.node.level ==> self.layer(prepared.node.node as int, ll)
                    == prepared.new_node_neighbours@[ll]@,
            forall|u2: int|
                0 <= u2 < prepared.updates@.len() ==> self.layer(
                    (#[trigger] prepared.updates@[u2]).0 as int,
                    prepared.updates@[u2].1 as int,
                ) == written_list(&prepared, trims, u2),
            forall|u2: int|
                0 <= u2 < prepared.updates@.len() ==> self.node_layers(
                    (#[trigger] prepared.updates@[u2]).0 as int,
                ).len() > prepared.updates@[u2].1,
            forall|i: int, ll: int|
                i != prepared.node.node && pre.has_node(i) && !touched_before(
                    &prepared,
                    prepared.updates@.len() as int,
                    i,
                    ll,
                ) ==> self.layer(i, ll) == pre.layer(i, ll),
            forall|i: int|
                i != prepared.node.node && pre.has_node(i) ==> pre.node_layers(i).len()
                    <= self.node_layers(i).len() && (self.node_layers(i).len() <= pre.node_layers(
                    i,
                ).len() || self.node_layers(i).len() <= prepared.node.level + 1),
            self.entry == if prepared.promote_entry {
                Some(EntryPoint { node: prepared.node.node, level: prepared.node.level })
            } else {
                pre.entry
            },
        ensures
            self.wf(),
            pre.entry_maximal_except(prepared.node.node as int) ==> self.entry_maximal(),
    {
        let nn = prepared.node.node;
        let nl = prepared.node.level;
        let mc = self.params.max_connections;
        assert forall|i: int| self.has_node(i) implies self.node_wf(i) by {
            if i == nn {
                assert(self.node_layers(i).len() == nl + 1);
                assert forall|ll: int|
                    0 <= ll < self.node_layers(i).len() implies self.list_wf(i, ll) by {
                    let s = self.layer(i, ll);
                    assert(s == prepared.new_node_neighbours@[ll]@);
                    assert(new_list_wf(pre, &prepared, ll));
                    assert forall|k: int|
                        0 <= k < s.len() implies (#[trigger] s[k]) != i && self.has_node(
                        s[k] as int,
                    ) && ll <= self.top_level(s[k] as int) by {
                        let c = s[k];
                        let uc = choose|uc: int|
                            0 <= uc < prepared.updates@.len() && (#[trigger] prepared.updates@[uc]).0
                                == c && prepared.updates@[uc].1 == ll
                                && prepared.updates@[uc].2@.contains(nn);
                        assert(self.node_layers(c as int).len() > ll);
                    }
                }
            } else {
                assert(pre.has_node(i));
                assert(pre.node_wf(i));
                assert(1 <= self.node_layers(i).len() <= self.params.max_level + 1);
                assert forall|ll: int|
                    0 <= ll < self.node_layers(i).len() implies self.list_wf(i, ll) by {
                    if touched_before(&prepared, prepared.updates@.len() as int, i, ll) {
                        let u2 = choose|u2: int|
                            0 <= u2 < prepared.updates@.len() && (#[trigger] prepared.updates@[u2]).0
                                == i && prepared.updates@[u2].1 == ll;
                        let s = self.layer(i, ll);
                        assert(s == written_list(&prepared, trims, u2));
                        assert(update_wf(pre, &prepared, u2));
                        let cands = prepared.updates@[u2].2@;
                        if exists|t: int|
                            0 <= t < trims.len() && (#[trigger] trims[t]).node == i && trims[t].level
                                == ll {
                            let t = choose|t: int|
                                0 <= t < trims.len() && (#[trigger] trims[t]).node == i
                                    && trims[t].level == ll;
                            assert(s == trims[t].neighbours@);
                            assert(trim_result_wf(pre, &prepared, trims[t]));
                            let ut = choose|ut: int|
                                0 <= ut < prepared.updates@.len() && (#[trigger] prepared.updates@[
                                ut]).0 == trims[t].node && prepared.updates@[ut].1 == trims[t].level
                                    && (forall|k: int|
                                    0 <= k < trims[t].neighbours@.len()
                                        ==> prepared.updates@[ut].2@.contains(
                                        #[trigger] trims[t].neighbours@[k],
                                    ));
                            assert(ut == u2) by {
                                if ut != u2 {
                                    if ut < u2 {
                                        assert(!(prepared.updates@[ut].0 == prepared.updates@[u2].0
                                            && prepared.updates@[ut].1 == prepared.updates@[u2].1));
                                    } else {
                                        assert(!(prepared.updates@[u2].0 == prepared.updates@[ut].0
                                            && prepared.updates@[u2].1 == prepared.updates@[ut].1));
                                    }
                                }
                            }
                            assert forall|k: int|
                                0 <= k < s.len() implies (#[trigger] s[k]) != i && self.has_node(
                                s[k] as int,
                            ) && ll <= self.top_level(s[k] as int) by {
                                assert(cands.contains(s[k]));
                                let w = choose|w: int| 0 <= w < cands.len() && cands[w] == s[k];
                                assert(cands[w] == s[k]);
                                self.lemma_commit_member_level(pre, prepared, s[k], ll);
                            }
                        } else {
                            assert(s == cands);
                            assert forall|k: int| 0 <= k < s.len() implies cands.contains(
                                #[trigger] s[k],
                            ) by {
                                assert(cands[k] == s[k]);
                            }
                            assert(s.len() <= mc) by {
                                if cands.len() > mc {
                                    assert(exists|t: int|
                                        0 <= t < trims.len() && (#[trigger] trims[t]).node
                                            == prepared.updates@[u2].0 && trims[t].level
                                            == prepared.updates@[u2].1);
                                }
                            }
                            assert forall|k: int|
                                0 <= k < s.len() implies (#[trigger] s[k]) != i && self.has_node(
                                s[k] as int,
                            ) && ll <= self.top_level(s[k] as int) by {
                                self.lemma_commit_member_level(pre, prepared, s[k], ll);
                            }
                        }
                    } else {
                        let s = self.layer(i, ll);
                        assert(s == pre.layer(i, ll));
                        assert(pre.list_wf(i, ll)) by {
                            if !(0 <= ll < pre.node_layers(i).len()) {
                                assert(pre.layer(i, ll) =~= Seq::<usize>::empty());
                            }
                        }
                        assert forall|k: int|
                            0 <= k < s.len() implies (#[trigger] s[k]) != i && self.has_node(
                            s[k] as int,
                        ) && ll <= self.top_level(s[k] as int) by {
                            assert(pre.has_node(s[k] as int));
                            if s[k] != nn {
                                assert(pre.node_layers(s[k] as int).len() <= self.node_layers(
                                    s[k] as int,
                                ).len());
                            }
                        }
                    }
                }
            }
        }
        match self.entry {
            Some(e) => {
                if prepared.promote_entry {
                    assert(e.node == nn && e.level == nl);
                    if pre.entry_maximal_except(nn as int) {
                        assert forall|i: int| self.has_node(i) implies self.top_level(i) <= nl by {
                            if i != nn {
                                match pre.spec_entry() {
                                    Some(e0) => {
                                        assert(pre.top_level(i) <= e0.level);
                                        assert(nl > e0.level);
                                    },
                                    None => {
                                        assert(!pre.has_node(i));
                                    },
                                }
                            }
                        }
                    }
                } else {
                    match pre.spec_entry() {
                        Some(e0) => {
                            assert(e == e0);
                            assert(e.node != nn);
                            assert(pre.node_layers(e.node as int).len() <= self.node_layers(
                                e.node as int,
                            ).len());
                            if pre.entry_maximal_except(nn as int) {
                                assert forall|i: int|
                                    self.has_node(i) implies self.top_level(i) <= e.level by {
                                    if i == nn {
                                        assert(nl <= e0.level);
                                    } else {
                                        assert(pre.top_level(i) <= e0.level);
                                        assert(nl <= e0.level);
                                    }
                                }
                            }
                        },
                        None => {
                            assert(prepared.promote_entry);
                        },
                    }
                }
            },
            None => {
                assert(prepared.promote_entry || pre.spec_entry() is None);
                assert(false);
            },
        }
    }

    /// Every candidate of a staged update either is the inserted node
    /// (whose level covers every staged layer) or kept its stored layers
    /// from before commit, which already covered the update's layer.
    proof fn lemma_commit_member_level(
        self,
        pre: &Graph,
        prepared: PreparedInsertion,
        c: usize,
        ll: int,
    )
        requires
            prepared_wf(pre, &prepared),
            exists|u2: int|
                0 <= u2 < prepared.updates@.len() && (#[trigger] prepared.updates@[u2]).0 != c
                    && prepared.updates@[u2].1 == ll && prepared.updates@[u2].2@.contains(c),
            forall|i: int| self.has_node(i) <==> pre.has_node(i),
            self.node_layers(prepared.node.node as int).len() == prepared.node.level + 1,
            forall|i: int|
                i != prepared.node.node && pre.has_node(i) ==> pre.node_layers(i).len()
                    <= self.node_layers(i).len(),
        ensures
            self.has_node(c as int),
            ll <= self.top_level(c as int),
    {
        let u2 = choose|u2: int|
            0 <= u2 < prepared.updates@.len() && (#[trigger] prepared.updates@[u2]).0 != c
                && prepared.updates@[u2].1 == ll && prepared.updates@[u2].2@.contains(c);
        assert(update_wf(pre, &prepared, u2));
        let w = choose|w: int|
            0 <= w < prepared.updates@[u2].2@.len() && prepared.updates@[u2].2@[w] == c;
        assert(prepared.updates@[u2].2@[w] == c);
        if c == prepared.node.node {
            assert(ll <= prepared.node.level);
        } else {
            assert(ll <= pre.top_level(c as int));
        }
    }

    /// Applies the full plan, apply, trim, commit sequence for one node.
    ///
    /// Planning scans every stored node; application attaches the new node
    /// and stages the adjacency changes; trim jobs are evaluated in
    /// parallel; commit writes all staged lists at once. The first error
    /// aborts the remainder: before attachment the graph is left exactly as
    /// it was, and a failure during trim evaluation leaves only the new
    /// node attached, with every invariant intact. The entry point's level
    /// never decreases.
    #[verifier::loop_isolation(false)]
    pub fn insert_node<D: DataSource + Sync>(
        &mut self,
        ctx: NodeContext,
        params: &HnswParams,
        source: &D,
    ) -> (r: Result<(), HnswError>)
        requires
            old(self).wf(),
            ctx.node < usize::MAX,
            ctx.level < usize::MAX,
            *params == old(self).spec_params(),
        ensures
            final(self).wf(),
            final(self).spec_params() == old(self).spec_params(),
            old(self).spec_entry() matches Some(e) ==> (final(self).spec_entry() matches Some(e2)
                && e2.level >= e.level),
            old(self).spec_entry() is None ==> r is Err,
            old(self).has_node(ctx.node as int) ==> r is Err,
            r is Err ==> final(self).same_state(old(self)),
            r matches Err(e) ==> e is InvalidParameters || e is DuplicateNode || e is DataSource,
            r is Ok ==> {
                &&& !old(self).has_node(ctx.node as int)
                &&& ctx.level <= old(self).spec_params().max_level
                &&& final(self).has_node(ctx.node as int)
                &&& final(self).top_level(ctx.node as int) == ctx.level
                &&& final(self).spec_count() == old(self).spec_count() + 1
                &&& (forall|i: int|
                    i != ctx.node ==> (final(self).has_node(i) <==> old(self).has_node(i)))
                &&& (old(self).spec_entry() matches Some(e) ==> final(self).spec_entry() == (
                if ctx.level > e.level {
                    Some(EntryPoint { node: ctx.node, level: ctx.level })
                } else {
                    Some(e)
                }))
                &&& (old(self).entry_maximal() ==> final(self).entry_maximal())
                &&& (forall|l: int|
                    0 <= l <= ctx.level ==> (#[trigger] final(self).layer(
                        ctx.node as int,
                        l,
                    )).len() == if old(self).spec_count() < old(
                        self,
                    ).spec_params().max_connections {
                        old(self).spec_count() as int
                    } else {
                        old(self).spec_params().max_connections as int
                    })
            },
    {
        let prev_len = self.nodes.len();
        let plan_full = match self.plan_insertion(ctx, params, source) {
            Ok(p) => p,
            Err(e) => {
                return Err(e);
            },
        };
        let ghost plan_full_v = plan_full;
        let plan = plan_full.take_for_level(ctx.level);
        proof {
            assert forall|li: int|
                0 <= li < plan.layers@.len() implies {
                let layer = #[trigger] plan.layers@[li];
                &&& layer.level == li
                &&& layer.neighbours@.len() <= self.spec_params().max_connections as int
                &&& sorted_by_distance(layer.neighbours@)
                &&& ids_distinct(neighbour_ids(layer.neighbours@))
                &&& forall|k: int|
                    0 <= k < layer.neighbours@.len() ==> {
                        let nb = #[trigger] layer.neighbours@[k];
                        nb.id != ctx.node && self.has_node(nb.id as int) && nb.distance.finite
                    }
            } by {
                assert(plan.layers@[li] == plan_full.layers@[li]);
            }
        }
        let apply_ctx = ApplyContext { params, plan };
        let ghost plan_v = apply_ctx.plan;
        let (prepared, trim_jobs) = match self.apply_insertion(ctx, apply_ctx) {
            Ok(pj) => pj,
            Err(e) => {
                proof {
                    self.lemma_same_state_wf(*old(self));
                }
                return Err(e);
            },
        };
        let ghost jobs0 = trim_jobs@;
        let ghost mid = *self;
        let trim_results = match evaluate_trim_jobs_parallel(trim_jobs, ctx.node, source) {
            Ok(ts) => ts,
            Err(e) => {
                // every failure before commit leaves the pre-insertion
                // state: undo the attachment
                proof {
                    assert forall|i: int, l: int|
                        i != ctx.node && self.has_node(i) implies !self.layer(i, l).contains(
                        ctx.node,
                    ) by {
                        assert(old(self).has_node(i));
                        assert(self.node_layers(i) == old(self).node_layers(i));
                        assert(self.layer(i, l) == old(self).layer(i, l));
                        if self.layer(i, l).contains(ctx.node) {
                            let w = choose|w: int|
                                0 <= w < old(self).layer(i, l).len() && old(self).layer(i, l)[w]
                                    == ctx.node;
                            assert(old(self).list_wf(i, l)) by {
                                if 0 <= l < old(self).node_layers(i).len() {
                                    assert(old(self).node_wf(i));
                                } else {
                                    assert(old(self).layer(i, l) =~= Seq::<usize>::empty());
                                }
                            }
                            assert(old(self).has_node(old(self).layer(i, l)[w] as int));
                        }
                    }
                    match self.spec_entry() {
                        Some(en) => {
                            assert(old(self).has_node(en.node as int));
                            assert(en.node != ctx.node);
                            assert(self.node_layers(en.node as int) == old(self).node_layers(
                                en.node as int,
                            ));
                        },
                        None => {
                            assert(old(self).spec_entry() is None);
                        },
                    }
                }
                self.rollback_attach(ctx.node, prev_len);
                proof {
                    assert forall|i: int|
                        0 <= i < self.nodes@.len() implies self.nodes@[i] == old(
                        self,
                    ).nodes@[i] by {
                        if i != ctx.node {
                            assert(mid.nodes@[i] == old(self).nodes@[i]);
                        } else {
                            assert(!old(self).has_node(i));
                            assert(old(self).nodes@[i] is None);
                            assert(!self.has_node(i));
                            assert(self.nodes@[i] is None);
                        }
                    }
                }
                return Err(e);
            },
        };
        let mut public: Vec<TrimResult> = Vec::new();
        let ghost ts0 = trim_results@;
        let mut trim_results = trim_results;
        while trim_results.len() > 0
            invariant
                trim_results@ =~= ts0.subrange(
                    ts0.len() - trim_results@.len(),
                    ts0.len() as int,
                ),
                public@.len() + trim_results@.len() == ts0.len(),
                forall|q: int|
                    0 <= q < public@.len() ==> (#[trigger] public@[q]).node == ts0[q].node
                        && public@[q].level == ts0[q].ctx.level && public@[q].neighbours@
                        == ts0[q].neighbours@,
            decreases trim_results@.len(),
        {
            let ghost done = public@.len();
            let tr = trim_results.remove(0);
            proof {
                assert(tr == ts0[done as int]);
            }
            public.push(tr.into_public());
            proof {
                assert(trim_results@ =~= ts0.subrange(
                    ts0.len() - trim_results@.len(),
                    ts0.len() as int,
                ));
            }
        }
        proof {
            assert forall|t: int|
                0 <= t < public@.len() implies trim_result_wf(
                &mid,
                &prepared,
                #[trigger] public@[t],
            ) by {
                assert(trim_outcome_ok(jobs0[t], ts0[t]));
                assert(trim_job_wf(&mid, &prepared, jobs0[t]));
                let u = choose|u: int|
                    0 <= u < prepared.updates@.len() && (#[trigger] prepared.updates@[u]).0
                        == jobs0[t].node && prepared.updates@[u].1 == jobs0[t].ctx.level
                        && jobs0[t].candidates@ == prepared.updates@[u].2@;
                assert(update_wf(&mid, &prepared, u));
                assert(ids_distinct(jobs0[t].candidates@));
                assert forall|k: int|
                    0 <= k < public@[t].neighbours@.len() implies prepared.updates@[u].2@.contains(
                    #[trigger] public@[t].neighbours@[k],
                ) by {
                    assert(jobs0[t].candidates@.contains(ts0[t].neighbours@[k]));
                }
            }
            assert forall|a: int, b: int|
                0 <= a < b < public@.len() implies !((#[trigger] public@[a]).node == (
            #[trigger] public@[b]).node && public@[a].level == public@[b].level) by {
                assert(!(jobs0[a].node == jobs0[b].node && jobs0[a].ctx.level
                    == jobs0[b].ctx.level));
            }
            assert forall|u: int|
                0 <= u < prepared.updates@.len() && (#[trigger] prepared.updates@[u]).2@.len()
                    > mid.spec_params().max_connections implies trim_covered(
                public@,
                prepared.updates@[u].0,
                prepared.updates@[u].1 as int,
            ) by {
                assert(covered(jobs0, prepared.updates@[u].0, prepared.updates@[u].1 as int));
                let t = choose|t: int|
                    0 <= t < jobs0.len() && (#[trigger] jobs0[t]).node == prepared.updates@[u].0
                        && jobs0[t].ctx.level == prepared.updates@[u].1;
                assert(public@[t].node == prepared.updates@[u].0 && public@[t].level
                    == prepared.updates@[u].1);
            }
        }
        let ghost prepared_v = prepared;
        let r = self.commit_insertion(prepared, public);
        proof {
            let mc = old(self).spec_params().max_connections as int;
            let cnt = old(self).spec_count() as int;
            assert(old(self).others_count(ctx.node as int) == cnt);
            assert forall|l: int| 0 <= l <= ctx.level implies (#[trigger] self.layer(
                ctx.node as int,
                l,
            )).len() == (if cnt < mc {
                cnt
            } else {
                mc
            }) by {
                assert(self.layer(ctx.node as int, l) == prepared_v.new_node_neighbours@[l]@);
                if plan_v.layers@.len() > 0 {
                    assert(plan_full_v.layers@.len() == ctx.level + 1);
                    assert(plan_v.layers@.len() == ctx.level + 1);
                    assert(prepared_v.new_node_neighbours@[l]@ == neighbour_ids(
                        plan_v.layers@[l].neighbours@,
                    ));
                    assert(plan_v.layers@[l] == plan_full_v.layers@[l]);
                    assert(plan_full_v.layers@[l].neighbours@.len() == (if cnt < mc {
                        cnt
                    } else {
                        mc
                    }));
                } else {
                    assert(plan_full_v.layers@.len() == 0);
                    assert(old(self).others_count(ctx.node as int) == 0);
                    assert(prepared_v.new_node_neighbours@[l]@ == Seq::<usize>::empty());
                }
            }
        }
        match r {
            Ok(()) => Ok(()),
            Err(e) => Err(e),
        }
    }

    /// Accesses a node immutably.
    pub fn node(&self, node: usize) -> (r: Option<&Node>)
        ensures
            r is Some <==> self.has_node(node as int),
            r matches Some(n) ==> n@ == self.node_layers(node as int),
    {
        if node < self.nodes.len() {
            self.nodes[node].as_ref()
        } else {
            None
        }
    }
}

} // verus!
