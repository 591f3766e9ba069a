//! Fuzzy matching of query terms: bounded edit distance, optionally against a
//! prefix of the candidate term.
use vstd::prelude::*;
use vstd::string::StrSliceExecFns;

verus! {

/// The Levenshtein distance between the first `i` characters of `a` and the
/// first `j` characters of `b`.
pub open spec fn edit_distance_prefixes(a: Seq<char>, b: Seq<char>, i: nat, j: nat) -> nat
    decreases i + j,
{
    if i == 0 {
        j
    } else if j == 0 {
        i
    } else {
        let substitute = edit_distance_prefixes(a, b, (i - 1) as nat, (j - 1) as nat) + if a[i - 1]
            == b[j - 1] {
            0nat
        } else {
            1nat
        };
        let delete = edit_distance_prefixes(a, b, (i - 1) as nat, j) + 1;
        let insert = edit_distance_prefixes(a, b, i, (j - 1) as nat) + 1;
        min3(substitute, delete, insert)
    }
}

pub open spec fn min3(x: nat, y: nat, z: nat) -> nat {
    if x <= y && x <= z {
        x
    } else if y <= z {
        y
    } else {
        z
    }
}

/// The Levenshtein distance between two character sequences.
pub open spec fn edit_distance(a: Seq<char>, b: Seq<char>) -> nat {
    edit_distance_prefixes(a, b, a.len(), b.len())
}

/// Whether `candidate` matches the query term `term` within `max_distance`
/// edits: as a whole, or, for a prefix query, through one of its prefixes.
pub open spec fn fuzzy_matches(term: Seq<char>, candidate: Seq<char>, max_distance: nat, prefix: bool) -> bool {
    if prefix {
        exists|k: nat| k <= candidate.len() && #[trigger] edit_distance_prefixes(term, candidate, term.len(), k) <= max_distance
    } else {
        edit_distance(term, candidate) <= max_distance
    }
}

proof fn lemma_distance_bound(a: Seq<char>, b: Seq<char>, i: nat, j: nat)
    ensures
        edit_distance_prefixes(a, b, i, j) <= i + j,
    decreases i + j,
{
    if i > 0 && j > 0 {
        lemma_distance_bound(a, b, (i - 1) as nat, j);
    }
}

/// The characters of a string.
pub fn chars_of(s: &str) -> (r: Vec<char>)
    ensures
        r@ == s@,
{
    let n = s.unicode_len();
    let mut r: Vec<char> = Vec::new();
    let mut i: usize = 0;
    while i < n
        invariant
            0 <= i <= n,
            n == s@.len(),
            r@ == s@.subrange(0, i as int),
        decreases n - i,
    {
        r.push(s.get_char(i));
        i = i + 1;
        assert(r@ =~= s@.subrange(0, i as int));
    }
    assert(r@ =~= s@);
    r
}

/// The last row of the edit-distance table: the distance from all of `a` to
/// each prefix of `b`.
fn distances_to_prefixes(a: &Vec<char>, b: &Vec<char>) -> (r: Vec<usize>)
    requires
        a@.len() + b@.len() < usize::MAX,
    ensures
        r@.len() == b@.len() + 1,
        forall|j: int| 0 <= j <= b@.len() ==> #[trigger] r@[j] == edit_distance_prefixes(a@, b@, a@.len(), j as nat),
{
    let n = a.len();
    let m = b.len();
    let mut prev: Vec<usize> = Vec::new();
    let mut j: usize = 0;
    while j <= m
        invariant
            0 <= j <= m + 1,
            m == b@.len(),
            n + m < usize::MAX,
            prev@.len() == j,
            forall|k: int| 0 <= k < j ==> #[trigger] prev@[k] == edit_distance_prefixes(a@, b@, 0, k as nat),
        decreases m + 1 - j,
    {
        prev.push(j);
        j = j + 1;
    }
    let mut i: usize = 1;
    while i <= n
        invariant
            1 <= i <= n + 1,
            n == a@.len(),
            m == b@.len(),
            n + m < usize::MAX,
            prev@.len() == m + 1,
            forall|k: int| 0 <= k <= m ==> #[trigger] prev@[k] == edit_distance_prefixes(a@, b@, (i - 1) as nat, k as nat),
        decreases n + 1 - i,
    {
        let mut cur: Vec<usize> = Vec::new();
        cur.push(i);
        let mut j: usize = 1;
        while j <= m
            invariant
                1 <= j <= m + 1,
                1 <= i <= n,
                n == a@.len(),
                m == b@.len(),
                n + m < usize::MAX,
                prev@.len() == m + 1,
                forall|k: int| 0 <= k <= m ==> #[trigger] prev@[k] == edit_distance_prefixes(a@, b@, (i - 1) as nat, k as nat),
                cur@.len() == j,
                forall|k: int| 0 <= k < j ==> #[trigger] cur@[k] == edit_distance_prefixes(a@, b@, i as nat, k as nat),
            decreases m + 1 - j,
        {
            proof {
                lemma_distance_bound(a@, b@, (i - 1) as nat, (j - 1) as nat);
                lemma_distance_bound(a@, b@, (i - 1) as nat, j as nat);
                lemma_distance_bound(a@, b@, i as nat, (j - 1) as nat);
            }
            let cost: usize = if a[i - 1] == b[j - 1] { 0 } else { 1 };
            let substitute = prev[j - 1] + cost;
            let delete = prev[j] + 1;
            let insert = cur[j - 1] + 1;
            let best = if substitute <= delete && substitute <= insert {
                substitute
            } else if delete <= insert {
                delete
            } else {
                insert
            };
            cur.push(best);
            j = j + 1;
        }
        prev = cur;
        i = i + 1;
    }
    prev
}

/// Whether `candidate` matches the query term `term` within `max_distance`
/// edits, as a whole or, for a prefix query, through one of its prefixes.
pub fn term_matches(term: &str, candidate: &str, max_distance: u8, prefix: bool) -> (r: bool)
    requires
        term@.len() + candidate@.len() < usize::MAX,
    ensures
        r == fuzzy_matches(term@, candidate@, max_distance as nat, prefix),
{
    let a = chars_of(term);
    let b = chars_of(candidate);
    let row = distances_to_prefixes(&a, &b);
    if !prefix {
        return row[b.len()] <= max_distance as usize;
    }
    let mut k: usize = 0;
    while k < row.len()
        invariant
            0 <= k <= row@.len(),
            prefix,
            row@.len() == b@.len() + 1,
            a@ == term@,
            b@ == candidate@,
            forall|j: int| 0 <= j <= b@.len() ==> #[trigger] row@[j] == edit_distance_prefixes(a@, b@, a@.len(), j as nat),
            forall|j: int| 0 <= j < k ==> row@[j] > max_distance,
        decreases row@.len() - k,
    {
        if row[k] <= max_distance as usize {
            let ghost kk: nat = k as nat;
            assert(kk <= candidate@.len());
            assert(edit_distance_prefixes(term@, candidate@, term@.len(), kk) <= max_distance as nat);
            return true;
        }
        k = k + 1;
    }
    assert forall|j: nat| j <= candidate@.len() implies !(#[trigger] edit_distance_prefixes(term@, candidate@, term@.len(), j) <= max_distance as nat) by {
        assert(row@[j as int] > max_distance);
    }
    false
}

/// The indices, in order, of the dictionary terms among the first `n` that
/// match the query term.
pub open spec fn matching_indices(
    term: Seq<char>,
    dictionary: Seq<String>,
    max_distance: nat,
    prefix: bool,
    n: nat,
) -> Seq<usize>
    decreases n,
{
    if n == 0 {
        Seq::empty()
    } else {
        let rest = matching_indices(term, dictionary, max_distance, prefix, (n - 1) as nat);
        if fuzzy_matches(term, dictionary[n - 1]@, max_distance, prefix) {
            rest.push((n - 1) as usize)
        } else {
            rest
        }
    }
}

proof fn lemma_matching_prefix(term: Seq<char>, dictionary: Seq<String>, max_distance: nat, prefix: bool, n: nat, m: nat)
    requires
        n <= m,
    ensures
        matching_indices(term, dictionary, max_distance, prefix, n).is_prefix_of(
            matching_indices(term, dictionary, max_distance, prefix, m),
        ),
    decreases m - n,
{
    if n < m {
        lemma_matching_prefix(term, dictionary, max_distance, prefix, n, (m - 1) as nat);
    }
}

/// The shortlist of a fuzzy query term: the indices of the first `limit`
/// dictionary terms, in dictionary order, that match it.
pub fn expand_fuzzy_term(
    term: &str,
    dictionary: &Vec<String>,
    max_distance: u8,
    prefix: bool,
    limit: usize,
) -> (r: Vec<usize>)
    requires
        forall|i: int| 0 <= i < dictionary@.len() ==> term@.len() + (#[trigger] dictionary@[i])@.len() < usize::MAX,
    ensures
        ({
            let all = matching_indices(term@, dictionary@, max_distance as nat, prefix, dictionary@.len());
            r@ == if all.len() <= limit { all } else { all.take(limit as int) }
        }),
{
    let ghost all = matching_indices(term@, dictionary@, max_distance as nat, prefix, dictionary@.len());
    let mut r: Vec<usize> = Vec::new();
    let mut i: usize = 0;
    while i < dictionary.len() && r.len() < limit
        invariant
            0 <= i <= dictionary@.len(),
            r@ == matching_indices(term@, dictionary@, max_distance as nat, prefix, i as nat),
            r@.len() <= limit,
            forall|k: int| 0 <= k < dictionary@.len() ==> term@.len() + (#[trigger] dictionary@[k])@.len() < usize::MAX,
        decreases dictionary@.len() - i,
    {
        if term_matches(term, dictionary[i].as_str(), max_distance, prefix) {
            r.push(i);
        }
        i = i + 1;
    }
    proof {
        lemma_matching_prefix(term@, dictionary@, max_distance as nat, prefix, i as nat, dictionary@.len());
        if i < dictionary@.len() {
            assert(r@.len() == limit);
            assert(all.take(limit as int) =~= r@);
        } else {
            assert(all == r@);
        }
    }
    r
}

} // verus!
