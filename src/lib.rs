//! Fuzzy matching and ranking over a corpus of timestamped text fragments.
use vstd::prelude::*;

pub mod text;
pub mod score;
pub mod query;
pub mod scan;
pub mod rank;
pub mod search;

verus! {

/// Why a search request was refused as a whole.
#[derive(Clone, Copy, Debug, PartialEq, Eq, Structural)]
pub enum SearchError {
    /// The query holds no term once normalized.
    EmptyQuery,
    /// A threshold or the result cap lies outside its range.
    InvalidThreshold,
    /// The corpus could not be enumerated at all.
    CorpusUnavailable,
}

} // verus!
