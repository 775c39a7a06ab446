//! Data access traits used by the HNSW graph.

use vstd::prelude::*;

verus! {

/// Order-preserving stand-in for a metric distance reported by a data source.
///
/// The index never does arithmetic on distances; it only compares them and
/// checks that they are finite. A data source encodes each distance as a
/// `key` whose `u64` order agrees with the order of the underlying metric
/// values (for IEEE floats, the usual total-order bit encoding), and reports
/// in `finite` whether the value was an ordinary number rather than a NaN or
/// an infinity.
#[derive(Clone, Copy, Debug, PartialEq, Eq, Structural)]
pub struct Distance {
    /// Order-preserving encoding of the distance value.
    pub key: u64,
    /// Whether the underlying value was finite.
    pub finite: bool,
}

/// Errors surfaced by a [`DataSource`].
#[derive(Debug, PartialEq)]
pub enum DataSourceError {
    /// The caller referenced a vector index outside the available range.
    OutOfBounds {
        /// The invalid index requested by the caller.
        index: usize,
    },
    /// The distance function reported an application-defined failure.
    Operation {
        /// Descriptive reason explaining the failure.
        message: String,
    },
}

impl DataSourceError {
    /// Creates a new [`DataSourceError::Operation`] from an arbitrary message.
    pub fn operation(message: &str) -> (r: Self)
        ensures
            r matches DataSourceError::Operation { message: m } && m@ == message@,
    {
        DataSourceError::Operation { message: message.to_owned() }
    }
}

/// Provides vector distances for the HNSW index.
///
/// Implementations live outside this crate, so nothing is assumed of the
/// distances they report; the index validates every result before using it.
pub trait DataSource {
    /// Computes the metric distance between `query` and `candidate`.
    fn distance(&self, query: usize, candidate: usize) -> Result<Distance, DataSourceError>;

    /// Computes distances from `query` to all `candidates` in a single pass,
    /// calling [`DataSource::distance`] for each candidate in order and
    /// stopping at the first failure.
    fn batch_distances(&self, query: usize, candidates: &[usize]) -> Result<
        Vec<Distance>,
        DataSourceError,
    > {
        let mut out: Vec<Distance> = Vec::new();
        let mut i: usize = 0;
        while i < candidates.len()
            invariant
                i <= candidates@.len(),
            decreases candidates@.len() - i,
        {
            match self.distance(query, candidates[i]) {
                Ok(d) => out.push(d),
                Err(e) => {
                    return Err(e);
                },
            }
            i = i + 1;
        }
        Ok(out)
    }
}

} // verus!
