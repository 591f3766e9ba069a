//! Wire-visible and tuning constants of the search engine.
use vstd::prelude::*;

verus! {

/// The field ID of the search field in every on-disk segment.
pub const SEARCH_FIELD_ID: u32 = 3;

/// Field ID of the internal document ID field.
pub const INTERNAL_ID_FIELD_ID: u32 = 0;

/// Field ID of the timestamp field.
pub const TS_FIELD_ID: u32 = 1;

/// Field ID of the creation time field.
pub const CREATION_TIME_FIELD_ID: u32 = 2;

/// Field ID of the first filter field; the others follow in sorted order.
pub const FIRST_FILTER_FIELD_ID: u32 = 4;

/// Maximum number of tokens of a search text that take part in a query.
pub const MAX_QUERY_TERMS: usize = 16;

/// Maximum number of equality filters in one query.
pub const MAX_FILTER_CONDITIONS: usize = 8;

/// Maximum number of candidates a query returns.
pub const MAX_CANDIDATE_REVISIONS: usize = 1024;

/// Tokens of at most this many characters must match exactly.
pub const EXACT_SEARCH_MAX_WORD_LENGTH: usize = 4;

/// Tokens of at most this many characters tolerate one typo; longer ones two.
pub const SINGLE_TYPO_SEARCH_MAX_WORD_LENGTH: usize = 8;

/// Name of the internal document ID field.
pub const INTERNAL_ID_FIELD_NAME: &'static str = "internal_id";

/// Name of the timestamp field.
pub const TS_FIELD_NAME: &'static str = "ts";

/// Name of the creation time field.
pub const CREATION_TIME_FIELD_NAME: &'static str = "creation_time";

} // verus!
