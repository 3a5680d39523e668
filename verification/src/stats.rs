//! Aggregate statistics over a repository's data, by data type.
use vstd::prelude::*;

verus! {

/// Totals for one data type.
#[derive(Clone, Debug)]
pub struct DataTypeStat {
    pub data_type: String,
    pub data_size: u64,
    pub file_count: usize,
}

/// Totals for a whole repository, broken down by data type.
#[derive(Debug)]
pub struct RepoStats {
    pub data_size: u64,
    pub data_types: std::collections::HashMap<String, DataTypeStat>,
}

} // verus!
