//! CPU-backed Hierarchical Navigable Small World (HNSW) index.

use vstd::prelude::*;

use crate::datasource::DataSourceError;

mod graph;
mod insert;
mod node;
mod order;
mod rng;
pub mod search;
mod types;

pub use graph::Graph;
pub use node::Node;
pub use types::{EntryPoint, Neighbour, NodeContext};

use rand::rngs::SmallRng;
use vstd::rwlock::RwLock;

use crate::datasource::DataSource;
use crate::hnsw::node::ids_distinct;
use crate::hnsw::order::{neighbour_ids, sorted_by_distance};
use crate::hnsw::rng::{coin_flip, new_rng};

verus! {

/// Parameters controlling the HNSW topology.
#[derive(Clone, Copy, Debug, Eq, PartialEq, Structural)]
pub struct HnswParams {
    /// Ceiling on sampled layers; strictly positive.
    pub max_level: usize,
    /// Degree budget per node and layer; strictly positive.
    pub max_connections: usize,
    /// Search width used during insertion-time search; strictly positive.
    pub ef_construction: usize,
}

impl HnswParams {
    /// All three parameters must be strictly positive. `max_level` is also
    /// bounded because a node at layer `max_level` stores `max_level + 1`
    /// neighbour lists, a length that must fit in a `usize`.
    pub open spec fn wf(&self) -> bool {
        0 < self.max_level < usize::MAX && self.max_connections > 0 && self.ef_construction > 0
    }

    /// Creates new parameters after validating invariants.
    ///
    /// The caller must supply strictly positive values: no well-formed index
    /// exists otherwise, so the bound is a precondition rather than a
    /// recoverable error.
    pub fn new(max_level: usize, max_connections: usize, ef_construction: usize) -> (r: Self)
        requires
            0 < max_level < usize::MAX,
            max_connections > 0,
            ef_construction > 0,
        ensures
            r == (HnswParams { max_level, max_connections, ef_construction }),
            r.wf(),
    {
        HnswParams { max_level, max_connections, ef_construction }
    }

    /// Maximum layer index.
    pub fn max_level(&self) -> (r: usize)
        ensures
            r == self.max_level,
    {
        self.max_level
    }

    /// Maximum number of neighbours per layer.
    pub fn max_connections(&self) -> (r: usize)
        ensures
            r == self.max_connections,
    {
        self.max_connections
    }

    /// Search width used during construction.
    pub fn ef_construction(&self) -> (r: usize)
        ensures
            r == self.ef_construction,
    {
        self.ef_construction
    }
}

/// Errors surfaced by the HNSW index.
#[derive(Debug)]
pub enum HnswError {
    /// Parameters supplied by the caller were invalid.
    InvalidParameters {
        /// Explanation of the invalid parameter combination.
        reason: String,
    },
    /// The caller attempted to insert a node that already exists.
    DuplicateNode {
        /// Identifier of the node supplied more than once.
        node: usize,
    },
    /// Internal graph invariants were violated.
    GraphInvariantViolation {
        /// Description of the violated invariant.
        message: String,
    },
    /// A data source reported an error while computing distances.
    DataSource(DataSourceError),
}

/// CPU-backed HNSW index with thread-safe access.
///
/// The graph sits behind a reader/writer lock whose invariant is the full
/// graph well-formedness: `search` takes shared read access, while `insert`
/// holds exclusive write access for the whole plan, apply, trim, commit
/// sequence, so no search observes a half-applied insertion and no two
/// insertions interleave. The random source for level sampling sits behind
/// its own lock, taken exclusively and before the graph lock.
pub struct CpuHnsw {
    params: HnswParams,
    graph: RwLock<Graph, spec_fn(Graph) -> bool>,
    rng: RwLock<SmallRng, spec_fn(SmallRng) -> bool>,
}

impl CpuHnsw {
    /// The configured parameters.
    pub closed spec fn spec_params(&self) -> HnswParams {
        self.params
    }

    /// Every value the graph lock can hold is a well-formed graph with this
    /// index's parameters; the lock on the random source admits any
    /// generator state.
    #[verifier::type_invariant]
    spec fn wf(&self) -> bool {
        &&& self.params.wf()
        &&& forall|g: Graph|
            #[trigger] self.graph.inv(g) == (g.wf() && g.spec_params() == self.params)
        &&& forall|r: SmallRng| #[trigger] self.rng.inv(r)
    }

    /// Creates a new index with the supplied `params`, initial capacity and
    /// random seed.
    pub fn new(params: HnswParams, capacity: usize, seed: u64) -> (index: Self)
        requires
            params.wf(),
        ensures
            index.spec_params() == params,
    {
        let graph = Graph::new(params, capacity);
        CpuHnsw {
            params,
            graph: RwLock::new(graph, Ghost(|g: Graph| g.wf() && g.spec_params() == params)),
            rng: RwLock::new(new_rng(seed), Ghost(|r: SmallRng| true)),
        }
    }

    /// Number of nodes currently stored in the index. Reporting only: the
    /// count changes exactly when an insertion succeeds.
    pub fn len(&self) -> usize {
        proof {
            use_type_invariant(self);
        }
        let read = self.graph.acquire_read();
        let n = read.borrow().len();
        read.release_read();
        n
    }

    /// Returns `true` when the index contains no nodes.
    pub fn is_empty(&self) -> bool {
        self.len() == 0
    }

    /// Samples a layer for a new node by independent fair coin flips, each
    /// flip continuing to the next level, capped at `max_level`.
    fn sample_level(&self) -> (r: usize)
        ensures
            r <= self.spec_params().max_level,
    {
        proof {
            use_type_invariant(self);
        }
        let (mut generator, handle) = self.rng.acquire_write();
        let mut level: usize = 0;
        while level < self.params.max_level && coin_flip(&mut generator)
            invariant
                level <= self.spec_params().max_level,
            decreases self.spec_params().max_level - level,
        {
            level = level + 1;
        }
        handle.release_write(generator);
        level
    }

    /// Inserts a node into the graph using the provided [`DataSource`].
    ///
    /// The node's level is sampled first; an empty index is bootstrapped
    /// through `insert_first` after a sanity check that the oracle can
    /// compute a self-distance, re-checking the entry point under the write
    /// lock in case another thread completed the bootstrap first. A failed
    /// insertion leaves the graph unchanged.
    pub fn insert<D: DataSource + Sync>(&self, node: usize, source: &D) -> (r: Result<
        (),
        HnswError,
    >)
        requires
            node < usize::MAX,
        ensures
            r matches Err(e) ==> e is InvalidParameters || e is DuplicateNode || e is DataSource,
    {
        proof {
            use_type_invariant(self);
        }
        let level = self.sample_level();
        let ctx = NodeContext { node, level };
        let read = self.graph.acquire_read();
        let has_entry = read.borrow().entry().is_some();
        read.release_read();
        if !has_entry {
            match search::validate_distance(source, node, node) {
                Ok(_) => {},
                Err(e) => {
                    return Err(e);
                },
            }
            let (mut g, writer) = self.graph.acquire_write();
            let ghost acquired = g;
            if g.entry().is_none() {
                let res = g.insert_first(ctx);
                proof {
                    if res is Err {
                        g.lemma_same_state_wf(acquired);
                    }
                }
                writer.release_write(g);
                return res;
            }
            writer.release_write(g);
        }
        let (mut g, writer) = self.graph.acquire_write();
        let r = g.insert_node(ctx, &self.params, source);
        writer.release_write(g);
        r
    }

    /// Searches for the `k` nearest neighbours to `query` under a shared
    /// read lock. An empty index yields an empty result, never an error.
    pub fn search<D: DataSource + Sync>(&self, query: usize, k: usize, source: &D) -> (r: Result<
        Vec<Neighbour>,
        HnswError,
    >)
        ensures
            r matches Ok(v) ==> v@.len() <= k && sorted_by_distance(v@) && ids_distinct(
                neighbour_ids(v@),
            ) && (forall|i: int| 0 <= i < v@.len() ==> (#[trigger] v@[i]).distance.finite),
            r matches Err(e) ==> e is DataSource || e is InvalidParameters,
    {
        proof {
            use_type_invariant(self);
        }
        let read = self.graph.acquire_read();
        let r = search::search(read.borrow(), query, k, &self.params, source);
        read.release_read();
        r
    }
}

} // verus!
