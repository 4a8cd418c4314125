//! The configuration and result of a query.
use crate::codec::ModelEntry;
use vstd::prelude::*;

verus! {

/// How a query is to be run.
pub struct QueryConfig {
    /// The most entries to give back, where there is a limit.
    pub limit: Option<usize>,
}

/// What a query gives back.
pub enum QueryResult {
    Multiple(Vec<ModelEntry>),
}

} // verus!
