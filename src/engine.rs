//! Merging the memory tier's and the disk tier's candidates of one query.
use vstd::prelude::*;
use crate::constants::MAX_CANDIDATE_REVISIONS;
use crate::errors::SearchError;
use crate::query::CompiledQuery;

verus! {

/// A candidate document of a query. Scores and creation times are held as
/// order-preserving keys: a greater key is a greater value.
#[derive(Debug, Clone, Copy, PartialEq, Eq, Structural)]
pub struct CandidateRevision {
    /// The 16-byte document ID read as a big-endian integer, so that integer
    /// order is byte order.
    pub id: u128,
    pub ts: u64,
    pub score_key: u64,
    pub creation_key: u64,
}

/// The result order: higher score first, then newer first, then by ID.
pub open spec fn ranks_before(a: CandidateRevision, b: CandidateRevision) -> bool {
    a.score_key > b.score_key || (a.score_key == b.score_key && (a.creation_key > b.creation_key || (
    a.creation_key == b.creation_key && a.id < b.id)))
}

/// `a` may stand before `b`: `b` does not rank before `a`.
pub open spec fn ranks_no_later(a: CandidateRevision, b: CandidateRevision) -> bool {
    !ranks_before(b, a)
}

/// `x` inserted into `s` before the first element that it ranks before.
pub open spec fn insert_ranked(s: Seq<CandidateRevision>, x: CandidateRevision) -> Seq<CandidateRevision>
    decreases s.len(),
{
    if s.len() == 0 {
        seq![x]
    } else if ranks_before(x, s[0]) {
        seq![x] + s
    } else {
        seq![s[0]] + insert_ranked(s.drop_first(), x)
    }
}

/// The candidates in result order; equal keys keep their order of arrival.
pub open spec fn ranked(s: Seq<CandidateRevision>) -> Seq<CandidateRevision>
    decreases s.len(),
{
    if s.len() == 0 {
        Seq::empty()
    } else {
        insert_ranked(ranked(s.drop_last()), s.last())
    }
}

/// The disk candidates whose document the memory tier has not tombstoned.
pub open spec fn surviving(disk: Seq<CandidateRevision>, tombstoned: Seq<u128>) -> Seq<CandidateRevision>
    decreases disk.len(),
{
    if disk.len() == 0 {
        Seq::empty()
    } else {
        let rest = surviving(disk.drop_last(), tombstoned);
        if tombstoned.contains(disk.last().id) {
            rest
        } else {
            rest.push(disk.last())
        }
    }
}

/// The result of a query: memory candidates and surviving disk candidates,
/// in result order, cut to `limit`.
pub open spec fn merged(
    memory: Seq<CandidateRevision>,
    disk: Seq<CandidateRevision>,
    tombstoned: Seq<u128>,
    limit: nat,
) -> Seq<CandidateRevision> {
    let all = ranked(memory + surviving(disk, tombstoned));
    if all.len() <= limit {
        all
    } else {
        all.take(limit as int)
    }
}

fn ranks_before_exec(a: &CandidateRevision, b: &CandidateRevision) -> (r: bool)
    ensures
        r == ranks_before(*a, *b),
{
    a.score_key > b.score_key || (a.score_key == b.score_key && (a.creation_key > b.creation_key || (
    a.creation_key == b.creation_key && a.id < b.id)))
}

proof fn lemma_insert_ranked_at(s: Seq<CandidateRevision>, x: CandidateRevision, p: int)
    requires
        0 <= p <= s.len(),
        forall|j: int| 0 <= j < p ==> !ranks_before(x, #[trigger] s[j]),
        p < s.len() ==> ranks_before(x, s[p]),
    ensures
        insert_ranked(s, x) == s.insert(p, x),
    decreases s.len(),
{
    if s.len() == 0 {
        assert(s.insert(p, x) =~= seq![x]);
    } else if p == 0 {
        assert(s.insert(p, x) =~= seq![x] + s);
    } else {
        let t = s.drop_first();
        assert forall|j: int| 0 <= j < p - 1 implies !ranks_before(x, #[trigger] t[j]) by {
            assert(t[j] == s[j + 1]);
        }
        lemma_insert_ranked_at(t, x, p - 1);
        assert(s.insert(p, x) =~= seq![s[0]] + t.insert(p - 1, x));
    }
}

/// Whether the tombstoned set holds `id`.
fn holds_id(ids: &Vec<u128>, id: u128) -> (r: bool)
    ensures
        r == ids@.contains(id),
{
    let mut i: usize = 0;
    while i < ids.len()
        invariant
            0 <= i <= ids@.len(),
            forall|k: int| 0 <= k < i ==> ids@[k] != id,
        decreases ids@.len() - i,
    {
        if ids[i] == id {
            return true;
        }
        i = i + 1;
    }
    false
}

/// Merges one query's candidates: drops the disk candidates whose document
/// the memory tier tombstoned, puts the rest with the memory candidates in
/// result order, and keeps the first `limit`.
pub fn merge_candidates(
    memory: Vec<CandidateRevision>,
    disk: Vec<CandidateRevision>,
    tombstoned: &Vec<u128>,
    limit: usize,
) -> (r: Vec<CandidateRevision>)
    ensures
        r@ == merged(memory@, disk@, tombstoned@, limit as nat),
{
    let mut all: Vec<CandidateRevision> = Vec::new();
    let mut i: usize = 0;
    while i < memory.len()
        invariant
            0 <= i <= memory@.len(),
            all@ == memory@.take(i as int),
        decreases memory@.len() - i,
    {
        all.push(memory[i]);
        i = i + 1;
        assert(all@ =~= memory@.take(i as int));
    }
    let mut j: usize = 0;
    while j < disk.len()
        invariant
            0 <= j <= disk@.len(),
            all@ == memory@ + surviving(disk@.take(j as int), tombstoned@),
        decreases disk@.len() - j,
    {
        assert(disk@.take(j + 1).drop_last() =~= disk@.take(j as int));
        let c = disk[j];
        if !holds_id(tombstoned, c.id) {
            all.push(c);
        }
        j = j + 1;
        assert(all@ =~= memory@ + surviving(disk@.take(j as int), tombstoned@));
    }
    assert(memory@.take(memory@.len() as int) =~= memory@);
    assert(disk@.take(disk@.len() as int) =~= disk@);
    let ghost all_seq = all@;
    let mut res: Vec<CandidateRevision> = Vec::new();
    let mut k: usize = 0;
    while k < all.len()
        invariant
            0 <= k <= all@.len(),
            all@ == all_seq,
            res@ == ranked(all_seq.take(k as int)),
        decreases all@.len() - k,
    {
        let c = all[k];
        let mut p: usize = 0;
        while p < res.len() && !ranks_before_exec(&c, &res[p])
            invariant
                0 <= p <= res@.len(),
                forall|m: int| 0 <= m < p ==> !ranks_before(c, #[trigger] res@[m]),
            decreases res@.len() - p,
        {
            p = p + 1;
        }
        proof {
            lemma_insert_ranked_at(res@, c, p as int);
            assert(all_seq.take(k + 1).drop_last() =~= all_seq.take(k as int));
        }
        res.insert(p, c);
        k = k + 1;
    }
    assert(all_seq.take(k as int) =~= all_seq);
    if res.len() > limit {
        res.truncate(limit);
    }
    res
}

proof fn lemma_insert_ranked_contents(s: Seq<CandidateRevision>, x: CandidateRevision)
    ensures
        insert_ranked(s, x).len() == s.len() + 1,
        forall|y: CandidateRevision| #[trigger] insert_ranked(s, x).contains(y) <==> (s.contains(y) || y == x),
    decreases s.len(),
{
    if s.len() > 0 && !ranks_before(x, s[0]) {
        let t = s.drop_first();
        lemma_insert_ranked_contents(t, x);
        assert forall|y: CandidateRevision| #[trigger] insert_ranked(s, x).contains(y) <==> (s.contains(y) || y == x) by {
            let r = insert_ranked(s, x);
            assert(r == seq![s[0]] + insert_ranked(t, x));
            if r.contains(y) {
                let k = choose|k: int| 0 <= k < r.len() && r[k] == y;
                if k > 0 {
                    assert(insert_ranked(t, x)[k - 1] == y);
                    assert(insert_ranked(t, x).contains(y));
                    if t.contains(y) {
                        let m = choose|m: int| 0 <= m < t.len() && t[m] == y;
                        assert(s[m + 1] == y);
                    }
                }
            }
            if s.contains(y) {
                let m = choose|m: int| 0 <= m < s.len() && s[m] == y;
                if m > 0 {
                    assert(t[m - 1] == y);
                    assert(insert_ranked(t, x).contains(y));
                    let k = choose|k: int| 0 <= k < insert_ranked(t, x).len() && insert_ranked(t, x)[k] == y;
                    assert(r[k + 1] == y);
                } else {
                    assert(r[0] == y);
                }
            }
            if y == x {
                assert(insert_ranked(t, x).contains(y));
                let k = choose|k: int| 0 <= k < insert_ranked(t, x).len() && insert_ranked(t, x)[k] == y;
                assert(r[k + 1] == y);
            }
        }
    } else if s.len() > 0 {
        assert forall|y: CandidateRevision| #[trigger] insert_ranked(s, x).contains(y) <==> (s.contains(y) || y == x) by {
            let r = insert_ranked(s, x);
            assert(r == seq![x] + s);
            if s.contains(y) {
                let m = choose|m: int| 0 <= m < s.len() && s[m] == y;
                assert(r[m + 1] == y);
            }
            if r.contains(y) && y != x {
                let k = choose|k: int| 0 <= k < r.len() && r[k] == y;
                assert(s[k - 1] == y);
            }
            if y == x {
                assert(r[0] == y);
            }
        }
    } else {
        assert forall|y: CandidateRevision| #[trigger] insert_ranked(s, x).contains(y) <==> (s.contains(y) || y == x) by {
            assert(insert_ranked(s, x)[0] == x);
        }
    }
}

/// Ranking keeps the candidates: the same number, and the same ones.
pub proof fn lemma_ranked_contents(s: Seq<CandidateRevision>)
    ensures
        ranked(s).len() == s.len(),
        forall|y: CandidateRevision| #[trigger] ranked(s).contains(y) <==> s.contains(y),
    decreases s.len(),
{
    if s.len() > 0 {
        let t = s.drop_last();
        lemma_ranked_contents(t);
        lemma_insert_ranked_contents(ranked(t), s.last());
        assert forall|y: CandidateRevision| #[trigger] ranked(s).contains(y) <==> s.contains(y) by {
            if t.contains(y) {
                let m = choose|m: int| 0 <= m < t.len() && t[m] == y;
                assert(s[m] == y);
            }
            if s.contains(y) && y != s.last() {
                let m = choose|m: int| 0 <= m < s.len() && s[m] == y;
                assert(t[m] == y);
            }
            if y == s.last() {
                assert(s[s.len() - 1] == y);
            }
        }
    }
}

proof fn lemma_insert_ranked_sorted(s: Seq<CandidateRevision>, x: CandidateRevision)
    requires
        forall|i: int| 0 <= i < s.len() - 1 ==> ranks_no_later(#[trigger] s[i], s[i + 1]),
    ensures
        forall|i: int|
            0 <= i < insert_ranked(s, x).len() - 1 ==> ranks_no_later(
                #[trigger] insert_ranked(s, x)[i],
                insert_ranked(s, x)[i + 1],
            ),
    decreases s.len(),
{
    lemma_insert_ranked_contents(s, x);
    if s.len() > 0 && !ranks_before(x, s[0]) {
        let t = s.drop_first();
        assert forall|i: int| 0 <= i < t.len() - 1 implies ranks_no_later(#[trigger] t[i], t[i + 1]) by {
            assert(t[i] == s[i + 1] && t[i + 1] == s[i + 2]);
        }
        lemma_insert_ranked_sorted(t, x);
        let r = insert_ranked(s, x);
        let rt = insert_ranked(t, x);
        assert(r == seq![s[0]] + rt);
        assert forall|i: int| 0 <= i < r.len() - 1 implies ranks_no_later(#[trigger] r[i], r[i + 1]) by {
            if i == 0 {
                if t.len() > 0 && ranks_before(x, t[0]) || t.len() == 0 {
                    assert(rt[0] == x);
                } else {
                    assert(rt[0] == t[0]);
                    assert(t[0] == s[1]);
                }
            } else {
                assert(r[i] == rt[i - 1] && r[i + 1] == rt[i]);
            }
        }
    } else if s.len() > 0 {
        let r = insert_ranked(s, x);
        assert(r == seq![x] + s);
        assert forall|i: int| 0 <= i < r.len() - 1 implies ranks_no_later(#[trigger] r[i], r[i + 1]) by {
            if i > 0 {
                assert(r[i] == s[i - 1] && r[i + 1] == s[i]);
            }
        }
    }
}

/// Ranking puts the candidates in result order.
pub proof fn lemma_ranked_sorted(s: Seq<CandidateRevision>)
    ensures
        forall|i: int| 0 <= i < ranked(s).len() - 1 ==> ranks_no_later(#[trigger] ranked(s)[i], ranked(s)[i + 1]),
    decreases s.len(),
{
    if s.len() > 0 {
        lemma_ranked_sorted(s.drop_last());
        lemma_insert_ranked_sorted(ranked(s.drop_last()), s.last());
    }
}

proof fn lemma_surviving_contents(disk: Seq<CandidateRevision>, tombstoned: Seq<u128>)
    ensures
        forall|y: CandidateRevision| #[trigger] surviving(disk, tombstoned).contains(y) ==> disk.contains(y)
            && !tombstoned.contains(y.id),
    decreases disk.len(),
{
    if disk.len() > 0 {
        let t = disk.drop_last();
        lemma_surviving_contents(t, tombstoned);
        assert forall|y: CandidateRevision| #[trigger] surviving(disk, tombstoned).contains(y) implies disk.contains(y)
            && !tombstoned.contains(y.id) by {
            let r = surviving(t, tombstoned);
            if r.contains(y) {
                let m = choose|m: int| 0 <= m < t.len() && t[m] == y;
                assert(disk[m] == y);
            } else {
                let q = surviving(disk, tombstoned);
                let k = choose|k: int| 0 <= k < q.len() && q[k] == y;
                assert(!tombstoned.contains(disk.last().id));
                assert(q == r.push(disk.last()));
                if k < r.len() {
                    assert(r[k] == y);
                }
                assert(disk[disk.len() - 1] == y);
            }
        }
    }
}

/// The IDs of the disk candidates that the memory tier tombstoned.
pub open spec fn dropped_ids(disk: Seq<CandidateRevision>, tombstoned: Seq<u128>) -> Set<u128> {
    Set::new(|id: u128| tombstoned.contains(id) && exists|i: int| 0 <= i < disk.len() && disk[i].id == id)
}

/// The candidates' IDs are pairwise distinct.
pub open spec fn distinct_ids(s: Seq<CandidateRevision>) -> bool {
    forall|i: int, j: int| 0 <= i < j < s.len() ==> (#[trigger] s[i]).id != (#[trigger] s[j]).id
}

proof fn lemma_surviving_count(disk: Seq<CandidateRevision>, tombstoned: Seq<u128>)
    requires
        distinct_ids(disk),
    ensures
        dropped_ids(disk, tombstoned).finite(),
        surviving(disk, tombstoned).len() + dropped_ids(disk, tombstoned).len() == disk.len(),
    decreases disk.len(),
{
    if disk.len() == 0 {
        assert(dropped_ids(disk, tombstoned) =~= Set::empty());
    } else {
        let t = disk.drop_last();
        let x = disk.last();
        assert forall|i: int, j: int| 0 <= i < j < t.len() implies (#[trigger] t[i]).id != (#[trigger] t[j]).id by {
            assert(t[i] == disk[i] && t[j] == disk[j]);
        }
        lemma_surviving_count(t, tombstoned);
        if tombstoned.contains(x.id) {
            assert(dropped_ids(disk, tombstoned) =~= dropped_ids(t, tombstoned).insert(x.id)) by {
                assert forall|id: u128| dropped_ids(disk, tombstoned).contains(id) implies dropped_ids(t, tombstoned).insert(x.id).contains(id) by {
                    let i = choose|i: int| 0 <= i < disk.len() && disk[i].id == id;
                    if i < t.len() {
                        assert(t[i].id == id);
                    }
                }
                assert forall|id: u128| dropped_ids(t, tombstoned).insert(x.id).contains(id) implies dropped_ids(disk, tombstoned).contains(id) by {
                    if id == x.id {
                        assert(disk[disk.len() - 1].id == id);
                    } else {
                        let i = choose|i: int| 0 <= i < t.len() && t[i].id == id;
                        assert(disk[i].id == id);
                    }
                }
            }
            assert(!dropped_ids(t, tombstoned).contains(x.id)) by {
                if dropped_ids(t, tombstoned).contains(x.id) {
                    let i = choose|i: int| 0 <= i < t.len() && t[i].id == x.id;
                    assert(disk[i].id == disk[disk.len() - 1].id);
                }
            }
        } else {
            assert(dropped_ids(disk, tombstoned) =~= dropped_ids(t, tombstoned)) by {
                assert forall|id: u128| dropped_ids(disk, tombstoned).contains(id) implies dropped_ids(t, tombstoned).contains(id) by {
                    let i = choose|i: int| 0 <= i < disk.len() && disk[i].id == id;
                    if i < t.len() {
                        assert(t[i].id == id);
                    }
                }
                assert forall|id: u128| dropped_ids(t, tombstoned).contains(id) implies dropped_ids(disk, tombstoned).contains(id) by {
                    let i = choose|i: int| 0 <= i < t.len() && t[i].id == id;
                    assert(disk[i].id == id);
                }
            }
        }
    }
}

/// The result depends on the candidates, the tombstones and the limit alone:
/// the same inputs give the same result.
pub proof fn lemma_merge_deterministic(
    memory: Seq<CandidateRevision>,
    disk: Seq<CandidateRevision>,
    tombstoned: Seq<u128>,
    limit: nat,
    memory2: Seq<CandidateRevision>,
    disk2: Seq<CandidateRevision>,
    tombstoned2: Seq<u128>,
    limit2: nat,
)
    requires
        memory == memory2,
        disk == disk2,
        tombstoned == tombstoned2,
        limit == limit2,
    ensures
        merged(memory, disk, tombstoned, limit) == merged(memory2, disk2, tombstoned2, limit2),
{
}

/// The result is in result order, holds at most `limit` candidates, and each
/// of them is a memory candidate or a disk candidate that was not tombstoned.
pub proof fn lemma_merged_shape(
    memory: Seq<CandidateRevision>,
    disk: Seq<CandidateRevision>,
    tombstoned: Seq<u128>,
    limit: nat,
)
    ensures
        merged(memory, disk, tombstoned, limit).len() <= limit,
        forall|i: int|
            0 <= i < merged(memory, disk, tombstoned, limit).len() - 1 ==> ranks_no_later(
                #[trigger] merged(memory, disk, tombstoned, limit)[i],
                merged(memory, disk, tombstoned, limit)[i + 1],
            ),
        forall|y: CandidateRevision| #[trigger] merged(memory, disk, tombstoned, limit).contains(y) ==> memory.contains(y) || (
        disk.contains(y) && !tombstoned.contains(y.id)),
{
    let all = memory + surviving(disk, tombstoned);
    lemma_ranked_contents(all);
    lemma_ranked_sorted(all);
    lemma_surviving_contents(disk, tombstoned);
    let r = merged(memory, disk, tombstoned, limit);
    assert forall|i: int| 0 <= i < r.len() - 1 implies ranks_no_later(#[trigger] r[i], r[i + 1]) by {
        assert(r[i] == ranked(all)[i] && r[i + 1] == ranked(all)[i + 1]);
    }
    assert forall|y: CandidateRevision| #[trigger] r.contains(y) implies memory.contains(y) || (disk.contains(y)
        && !tombstoned.contains(y.id)) by {
        let k = choose|k: int| 0 <= k < r.len() && r[k] == y;
        assert(ranked(all)[k] == y);
        assert(ranked(all).contains(y));
        let m = choose|m: int| 0 <= m < all.len() && all[m] == y;
        if m < memory.len() {
            assert(memory[m] == y);
        } else {
            assert(surviving(disk, tombstoned)[m - memory.len()] == y);
            assert(surviving(disk, tombstoned).contains(y));
        }
    }
}

/// No disk candidate of a tombstoned document reaches the result; when no
/// memory candidate is tombstoned either, no result is.
pub proof fn lemma_tombstones_excluded(
    memory: Seq<CandidateRevision>,
    disk: Seq<CandidateRevision>,
    tombstoned: Seq<u128>,
    limit: nat,
)
    requires
        forall|i: int| 0 <= i < memory.len() ==> !tombstoned.contains(#[trigger] memory[i].id),
    ensures
        forall|i: int|
            0 <= i < merged(memory, disk, tombstoned, limit).len() ==> !tombstoned.contains(
                #[trigger] merged(memory, disk, tombstoned, limit)[i].id,
            ),
{
    lemma_merged_shape(memory, disk, tombstoned, limit);
    let r = merged(memory, disk, tombstoned, limit);
    assert forall|i: int| 0 <= i < r.len() implies !tombstoned.contains(#[trigger] r[i].id) by {
        assert(r.contains(r[i]));
        if memory.contains(r[i]) {
            let m = choose|m: int| 0 <= m < memory.len() && memory[m] == r[i];
            assert(!tombstoned.contains(memory[m].id));
        }
    }
}

/// Overfetching by the number of tombstoned matches suffices: with no memory
/// candidate, and disk candidates of distinct documents numbering at least
/// `limit` plus the tombstoned matches, exactly `limit` results come back.
pub proof fn lemma_overfetch_sufficient(
    disk: Seq<CandidateRevision>,
    tombstoned: Seq<u128>,
    limit: nat,
)
    requires
        distinct_ids(disk),
        disk.len() >= limit + tombstoned.len(),
    ensures
        merged(Seq::empty(), disk, tombstoned, limit).len() == limit,
{
    lemma_surviving_count(disk, tombstoned);
    assert(dropped_ids(disk, tombstoned).subset_of(tombstoned.to_set()));
    vstd::set_lib::lemma_len_subset(dropped_ids(disk, tombstoned), tombstoned.to_set());
    tombstoned.lemma_cardinality_of_set();
    let all = Seq::<CandidateRevision>::empty() + surviving(disk, tombstoned);
    assert(all =~= surviving(disk, tombstoned));
    lemma_ranked_contents(all);
}

/// How many candidates to ask the disk tier for: the result size plus one
/// for each tombstoned match, since those are dropped after the disk query.
pub fn disk_query_limit(overfetch_delta: usize) -> (r: usize)
    requires
        overfetch_delta <= usize::MAX - MAX_CANDIDATE_REVISIONS,
    ensures
        r == MAX_CANDIDATE_REVISIONS + overfetch_delta,
{
    MAX_CANDIDATE_REVISIONS + overfetch_delta
}

/// The candidates of a query, cut to `MAX_CANDIDATE_REVISIONS`.
pub fn merge_search_results(
    memory: Vec<CandidateRevision>,
    disk: Vec<CandidateRevision>,
    tombstoned: &Vec<u128>,
) -> (r: Vec<CandidateRevision>)
    ensures
        r@ == merged(memory@, disk@, tombstoned@, MAX_CANDIDATE_REVISIONS as nat),
{
    merge_candidates(memory, disk, tombstoned, MAX_CANDIDATE_REVISIONS)
}

/// The disk tier: runs a compiled query against one on-disk segment and
/// returns its best candidates, at most `limit` of them.
pub trait Searcher {
    fn execute_query(&self, query: &CompiledQuery, limit: usize) -> (r: Result<
        Vec<CandidateRevision>,
        SearchError,
    >)
        ensures
            r matches Ok(v) ==> v@.len() <= limit,
            r is Err ==> r == Err::<Vec<CandidateRevision>, SearchError>(SearchError::SearcherFailed),
    ;
}

/// Runs one query against the disk tier and merges: asks the searcher for
/// `MAX_CANDIDATE_REVISIONS` plus one candidate per tombstoned match, then
/// merges its answer with the memory tier's candidates.
pub fn search<S: Searcher>(
    searcher: &S,
    query: &CompiledQuery,
    memory: Vec<CandidateRevision>,
    tombstoned_matches: &Vec<u128>,
) -> (r: Result<Vec<CandidateRevision>, SearchError>)
    requires
        tombstoned_matches@.len() <= usize::MAX - MAX_CANDIDATE_REVISIONS,
    ensures
        r is Err ==> r == Err::<Vec<CandidateRevision>, SearchError>(SearchError::SearcherFailed),
        r matches Ok(v) ==> exists|disk: Seq<CandidateRevision>|
            disk.len() <= MAX_CANDIDATE_REVISIONS + tombstoned_matches@.len() && v@ == merged(
                memory@,
                disk,
                tombstoned_matches@,
                MAX_CANDIDATE_REVISIONS as nat,
            ),
{
    let limit = disk_query_limit(tombstoned_matches.len());
    let disk = searcher.execute_query(query, limit)?;
    let ghost disk_view = disk@;
    let merged_candidates = merge_search_results(memory, disk, tombstoned_matches);
    assert(disk_view.len() <= MAX_CANDIDATE_REVISIONS + tombstoned_matches@.len());
    Ok(merged_candidates)
}

} // verus!
