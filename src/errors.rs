//! Errors of the search engine. User errors carry a stable short code.
use vstd::prelude::*;

verus! {

#[derive(Debug, Clone, Copy, PartialEq, Eq, Structural)]
pub enum SearchError {
    /// A search filter names another field than the index's search field.
    IncorrectSearchField,
    /// The query holds more than one search filter.
    DuplicateSearchFiltersError,
    /// An equality filter names a field that is not a filter field.
    IncorrectFilterFieldError,
    /// The query holds no search filter.
    MissingSearchFilterError,
    /// The query holds more equality filters than allowed.
    TooManyFilterConditionsInSearchQueryError,
    /// The index is not a search index.
    IndexNotASearchIndexError,
    /// A token's position does not fit in 32 bits.
    TokenPositionOverflow,
    /// Combined BM25 statistics fall outside their range.
    InconsistentStatistics,
    /// The disk searcher failed; the caller decides on a retry.
    SearcherFailed,
}

/// The stable short code of a search error.
pub open spec fn search_error_code(e: SearchError) -> Seq<char> {
    match e {
        SearchError::IncorrectSearchField => "IncorrectSearchField"@,
        SearchError::DuplicateSearchFiltersError => "DuplicateSearchFiltersError"@,
        SearchError::IncorrectFilterFieldError => "IncorrectFilterFieldError"@,
        SearchError::MissingSearchFilterError => "MissingSearchFilterError"@,
        SearchError::TooManyFilterConditionsInSearchQueryError => "TooManyFilterConditionsInSearchQueryError"@,
        SearchError::IndexNotASearchIndexError => "IndexNotASearchIndexError"@,
        SearchError::TokenPositionOverflow => "TokenPositionOverflow"@,
        SearchError::InconsistentStatistics => "InconsistentStatistics"@,
        SearchError::SearcherFailed => "SearcherFailed"@,
    }
}

impl SearchError {
    /// Whether the error is the user's (a bad request) rather than internal.
    pub fn is_user_error(&self) -> (r: bool)
        ensures
            r == !(*self is TokenPositionOverflow || *self is InconsistentStatistics
                || *self is SearcherFailed),
    {
        !matches!(
            self,
            SearchError::TokenPositionOverflow | SearchError::InconsistentStatistics
                | SearchError::SearcherFailed
        )
    }

    /// The stable short code of the error.
    pub fn short_code(&self) -> (r: &'static str)
        ensures
            r@ == search_error_code(*self),
    {
        match self {
            SearchError::IncorrectSearchField => "IncorrectSearchField",
            SearchError::DuplicateSearchFiltersError => "DuplicateSearchFiltersError",
            SearchError::IncorrectFilterFieldError => "IncorrectFilterFieldError",
            SearchError::MissingSearchFilterError => "MissingSearchFilterError",
            SearchError::TooManyFilterConditionsInSearchQueryError => {
                "TooManyFilterConditionsInSearchQueryError"
            },
            SearchError::IndexNotASearchIndexError => "IndexNotASearchIndexError",
            SearchError::TokenPositionOverflow => "TokenPositionOverflow",
            SearchError::InconsistentStatistics => "InconsistentStatistics",
            SearchError::SearcherFailed => "SearcherFailed",
        }
    }
}

} // verus!
