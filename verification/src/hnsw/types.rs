//! Shared type definitions for the HNSW graph implementation.

use vstd::prelude::*;

use crate::datasource::Distance;
use crate::hnsw::HnswParams;

verus! {

/// Identifies a node alongside the highest layer it participates in.
#[derive(Clone, Copy, Debug, Eq, PartialEq, Structural)]
pub struct NodeContext {
    /// Identifier of the node being inserted.
    pub node: usize,
    /// Highest layer the node participates in.
    pub level: usize,
}

/// Entry point for navigating the layered graph.
#[derive(Clone, Copy, Debug, Eq, PartialEq, Structural)]
pub struct EntryPoint {
    /// Identifier of the entry node.
    pub node: usize,
    /// Highest layer of the entry node.
    pub level: usize,
}

/// Captures a query, entry node, and target level for search.
#[derive(Clone, Copy, Debug, Eq, PartialEq, Structural)]
pub(crate) struct SearchContext {
    pub(crate) query: usize,
    pub(crate) entry: usize,
    pub(crate) level: usize,
}

impl SearchContext {
    /// Extends the context with a search width parameter.
    pub(crate) fn with_ef(self, ef: usize) -> (r: ExtendedSearchContext)
        ensures
            r == (ExtendedSearchContext { base: self, ef }),
    {
        ExtendedSearchContext { base: self, ef }
    }
}

/// Adds a search width to the base context.
#[derive(Clone, Copy, Debug, Eq, PartialEq, Structural)]
pub(crate) struct ExtendedSearchContext {
    pub(crate) base: SearchContext,
    pub(crate) ef: usize,
}

/// Context for trimming edges to enforce maximum degree.
#[derive(Clone, Copy, Debug, Eq, PartialEq, Structural)]
pub(crate) struct EdgeContext {
    pub(crate) level: usize,
    pub(crate) max_connections: usize,
}

impl EdgeContext {
    /// Builds the context for a specific level.
    pub(crate) fn for_level(params: &HnswParams, level: usize) -> (r: Self)
        ensures
            r == (EdgeContext { level, max_connections: params.max_connections }),
    {
        EdgeContext { level, max_connections: params.max_connections() }
    }
}

/// Neighbour reference used during planning and search.
#[derive(Clone, Copy, Debug, Eq, PartialEq, Structural)]
pub struct Neighbour {
    /// Node identifier referenced by the neighbour.
    pub id: usize,
    /// Metric distance between the query and the neighbour.
    pub distance: Distance,
}

/// Planned neighbours for a layer.
#[derive(Clone, Debug, PartialEq)]
pub(crate) struct LayerPlan {
    pub(crate) level: usize,
    pub(crate) neighbours: Vec<Neighbour>,
}

/// Complete insertion plan for a node.
#[derive(Clone, Debug, PartialEq)]
pub(crate) struct InsertionPlan {
    pub(crate) layers: Vec<LayerPlan>,
}

impl InsertionPlan {
    /// Filters the plan to layers within the provided level. Layers are
    /// indexed by level, so this keeps the prefix up to `level`.
    pub(crate) fn take_for_level(self, level: usize) -> (r: Self)
        requires
            level < usize::MAX,
            forall|li: int| 0 <= li < self.layers@.len() ==> (#[trigger] self.layers@[li]).level == li,
        ensures
            r.layers@.len() == if self.layers@.len() <= level + 1 {
                self.layers@.len() as int
            } else {
                level + 1
            },
            forall|li: int| 0 <= li < r.layers@.len() ==> #[trigger] r.layers@[li] == self.layers@[li],
    {
        let mut plan = self;
        plan.layers.truncate(level + 1);
        plan
    }
}

/// Context captured when applying a prepared insertion.
#[derive(Debug)]
pub(crate) struct ApplyContext<'a> {
    pub(crate) params: &'a HnswParams,
    pub(crate) plan: InsertionPlan,
}

/// Prepared adjacency updates for a node insertion.
#[derive(Debug, PartialEq)]
pub(crate) struct PreparedInsertion {
    pub(crate) node: NodeContext,
    pub(crate) promote_entry: bool,
    pub(crate) new_node_neighbours: Vec<Vec<usize>>,
    pub(crate) updates: Vec<(usize, usize, Vec<usize>)>,
}

/// Result of trimming a node's candidate list.
#[derive(Debug, PartialEq)]
pub(crate) struct TrimResult {
    pub(crate) node: usize,
    pub(crate) level: usize,
    pub(crate) neighbours: Vec<usize>,
}

} // verus!
