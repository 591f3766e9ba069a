//! BM25 statistics: the disk segment's, and the signed difference the memory
//! tier makes to them.
use vstd::prelude::*;
use crate::errors::SearchError;

verus! {

/// Statistics of the search field over a set of documents, with the document
/// frequency of each shortlisted term, in shortlist order.
pub struct Bm25Statistics {
    pub num_documents: u64,
    pub num_search_tokens: u64,
    pub doc_frequencies: Vec<u64>,
}

/// The signed difference that the memory tier makes to the statistics:
/// additions count up, tombstones count down.
pub struct Bm25StatisticsDiff {
    pub num_documents_diff: i64,
    pub num_search_tokens_diff: i64,
    pub doc_frequency_diffs: Vec<i64>,
}

/// Whether `base + diff` is a count.
pub open spec fn in_range(base: u64, diff: i64) -> bool {
    0 <= base + diff <= u64::MAX
}

/// Whether the difference applies to the statistics without leaving their range.
pub open spec fn diff_applies(disk: &Bm25Statistics, diff: &Bm25StatisticsDiff) -> bool {
    &&& in_range(disk.num_documents, diff.num_documents_diff)
    &&& in_range(disk.num_search_tokens, diff.num_search_tokens_diff)
    &&& forall|i: int|
        0 <= i < disk.doc_frequencies@.len() ==> in_range(
            #[trigger] disk.doc_frequencies@[i],
            diff.doc_frequency_diffs@[i],
        )
}

fn add_signed(base: u64, diff: i64) -> (r: Option<u64>)
    ensures
        r is Some <==> in_range(base, diff),
        r matches Some(v) ==> v == base + diff,
{
    let sum: i128 = base as i128 + diff as i128;
    if sum < 0 || sum > u64::MAX as i128 {
        None
    } else {
        Some(sum as u64)
    }
}

/// The global statistics: the disk segment's with the memory tier's
/// difference applied, count by count and term by term.
pub fn combine_statistics(disk: &Bm25Statistics, diff: &Bm25StatisticsDiff) -> (r: Result<
    Bm25Statistics,
    SearchError,
>)
    requires
        disk.doc_frequencies@.len() == diff.doc_frequency_diffs@.len(),
    ensures
        r is Ok <==> diff_applies(disk, diff),
        r is Err ==> r == Err::<Bm25Statistics, SearchError>(SearchError::InconsistentStatistics),
        r matches Ok(g) ==> {
            &&& g.num_documents == disk.num_documents + diff.num_documents_diff
            &&& g.num_search_tokens == disk.num_search_tokens + diff.num_search_tokens_diff
            &&& g.doc_frequencies@.len() == disk.doc_frequencies@.len()
            &&& forall|i: int|
                0 <= i < g.doc_frequencies@.len() ==> #[trigger] g.doc_frequencies@[i]
                    == disk.doc_frequencies@[i] + diff.doc_frequency_diffs@[i]
        },
{
    let num_documents = match add_signed(disk.num_documents, diff.num_documents_diff) {
        Some(v) => v,
        None => {
            return Err(SearchError::InconsistentStatistics);
        },
    };
    let num_search_tokens = match add_signed(disk.num_search_tokens, diff.num_search_tokens_diff) {
        Some(v) => v,
        None => {
            return Err(SearchError::InconsistentStatistics);
        },
    };
    let mut doc_frequencies: Vec<u64> = Vec::new();
    let mut i: usize = 0;
    while i < disk.doc_frequencies.len()
        invariant
            0 <= i <= disk.doc_frequencies@.len(),
            disk.doc_frequencies@.len() == diff.doc_frequency_diffs@.len(),
            doc_frequencies@.len() == i,
            forall|k: int|
                0 <= k < i ==> in_range(#[trigger] disk.doc_frequencies@[k], diff.doc_frequency_diffs@[k]),
            forall|k: int|
                0 <= k < i ==> #[trigger] doc_frequencies@[k] == disk.doc_frequencies@[k]
                    + diff.doc_frequency_diffs@[k],
        decreases disk.doc_frequencies@.len() - i,
    {
        match add_signed(disk.doc_frequencies[i], diff.doc_frequency_diffs[i]) {
            Some(v) => doc_frequencies.push(v),
            None => {
                assert(!in_range(disk.doc_frequencies@[i as int], diff.doc_frequency_diffs@[i as int]));
                return Err(SearchError::InconsistentStatistics);
            },
        }
        i = i + 1;
    }
    Ok(Bm25Statistics { num_documents, num_search_tokens, doc_frequencies })
}

/// The global document frequency of every shortlisted term is its disk
/// frequency plus the memory tier's difference.
pub proof fn lemma_stats_consistent(disk: Bm25Statistics, diff: Bm25StatisticsDiff, global: Bm25Statistics, t: int)
    requires
        0 <= t < disk.doc_frequencies@.len(),
        global.doc_frequencies@.len() == disk.doc_frequencies@.len(),
        forall|i: int|
            0 <= i < global.doc_frequencies@.len() ==> #[trigger] global.doc_frequencies@[i]
                == disk.doc_frequencies@[i] + diff.doc_frequency_diffs@[i],
    ensures
        global.doc_frequencies@[t] == disk.doc_frequencies@[t] + diff.doc_frequency_diffs@[t],
{
}

} // verus!
