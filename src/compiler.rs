//! Compiling a search query against a schema.
use vstd::prelude::*;
use vstd::string::StrSliceExecFns;
use crate::analysis::{analyze, analyzed};
use crate::constants::{
    EXACT_SEARCH_MAX_WORD_LENGTH,
    MAX_FILTER_CONDITIONS,
    MAX_QUERY_TERMS,
    SINGLE_TYPO_SEARCH_MAX_WORD_LENGTH,
};
use crate::errors::SearchError;
use crate::query::{
    CompiledFilterCondition,
    CompiledQuery,
    FilterConditionRead,
    InternalSearch,
    InternalSearchFilterExpression,
    QueryReads,
    QueryTerm,
    SearchVersion,
    TermShape,
    TextQueryTerm,
    TextQueryTermRead,
};
use crate::schema::{FieldPath, TantivySearchIndexSchema};
use crate::terms::{copy_bytes, Term};

verus! {

/// The number of typos a token of `char_count` characters tolerates.
pub open spec fn num_typos(char_count: nat) -> u8 {
    if char_count <= EXACT_SEARCH_MAX_WORD_LENGTH {
        0
    } else if char_count <= SINGLE_TYPO_SEARCH_MAX_WORD_LENGTH {
        1
    } else {
        2
    }
}

/// How a token is matched: under `V1` exactly; under `V2` with the typos its
/// length allows, and as a prefix when it is the last token.
pub open spec fn term_shape(token: Seq<char>, is_last: bool, version: SearchVersion) -> TermShape {
    match version {
        SearchVersion::V1 => TermShape { exact: true, max_distance: 0, prefix: false },
        SearchVersion::V2 => {
            let typos = num_typos(token.len());
            if typos == 0 && !is_last {
                TermShape { exact: true, max_distance: 0, prefix: false }
            } else {
                TermShape { exact: false, max_distance: typos, prefix: is_last }
            }
        },
    }
}

/// The shapes of a sequence of tokens.
pub open spec fn token_shapes(tokens: Seq<Seq<char>>, version: SearchVersion) -> Seq<TermShape> {
    Seq::new(tokens.len(), |i: int| term_shape(tokens[i], i == tokens.len() - 1, version))
}

/// The tokens of a search text that a query uses: at most the first
/// `MAX_QUERY_TERMS` tokens of the analyzer.
pub open spec fn query_tokens(text: Seq<char>) -> Seq<Seq<char>> {
    let all = analyzed(text);
    let n = if all.len() <= MAX_QUERY_TERMS { all.len() as int } else { MAX_QUERY_TERMS as int };
    Seq::new(n as nat, |i: int| all[i].0)
}

/// Whether `terms` are the tokens `tokens` of field `field`, shaped under `version`.
pub open spec fn text_query_is(
    terms: Seq<QueryTerm>,
    field: u32,
    tokens: Seq<Seq<char>>,
    version: SearchVersion,
) -> bool {
    &&& terms.len() == tokens.len()
    &&& forall|i: int|
        0 <= i < terms.len() ==> #[trigger] terms[i].has_shape(
            field,
            tokens[i],
            token_shapes(tokens, version)[i],
        )
}

/// Whether `reads` record the tokens `tokens` of path `path`, shaped under `version`.
pub open spec fn text_reads_are(
    reads: Seq<TextQueryTermRead>,
    path: Seq<char>,
    tokens: Seq<Seq<char>>,
    version: SearchVersion,
) -> bool {
    &&& reads.len() == tokens.len()
    &&& forall|i: int|
        0 <= i < reads.len() ==> (#[trigger] reads[i]).field_path@ == path && reads[i].term.token()
            == tokens[i] && reads[i].term.shape() == token_shapes(tokens, version)[i]
}

/// The equality filters of a query, in order, as (path, value) pairs.
pub open spec fn eq_filters(filters: Seq<InternalSearchFilterExpression>) -> Seq<(Seq<char>, Seq<u8>)>
    decreases filters.len(),
{
    if filters.len() == 0 {
        Seq::empty()
    } else {
        let rest = eq_filters(filters.drop_last());
        match filters.last() {
            InternalSearchFilterExpression::Eq(p, v) => rest.push((p@, v@)),
            InternalSearchFilterExpression::Search(_, _) => rest,
        }
    }
}

/// Whether `cond` requires the byte term `bytes` of field `field`.
pub open spec fn must_is(cond: CompiledFilterCondition, field: u32, bytes: Seq<u8>) -> bool {
    match cond {
        CompiledFilterCondition::Must(t) => t.is_bytes(field, bytes),
    }
}

/// Whether `reads` record the equalities `eqs`.
pub open spec fn filter_reads_are(reads: Seq<FilterConditionRead>, eqs: Seq<(Seq<char>, Seq<u8>)>) -> bool {
    &&& reads.len() == eqs.len()
    &&& forall|i: int|
        0 <= i < reads.len() ==> match #[trigger] reads[i] {
            FilterConditionRead::Must(p, v) => p@ == eqs[i].0 && v@ == eqs[i].1,
        }
}

impl TantivySearchIndexSchema {
    /// The state after checking the first `n` filters: the search text found
    /// so far, or the first violation.
    pub open spec fn scan_filters(&self, filters: Seq<InternalSearchFilterExpression>, n: nat) -> Result<
        Option<Seq<char>>,
        SearchError,
    >
        decreases n,
    {
        if n == 0 {
            Ok(None)
        } else {
            match self.scan_filters(filters, (n - 1) as nat) {
                Err(e) => Err(e),
                Ok(text) => match filters[n - 1] {
                    InternalSearchFilterExpression::Search(p, t) => {
                        if p@ != self.search_path() {
                            Err(SearchError::IncorrectSearchField)
                        } else if text is Some {
                            Err(SearchError::DuplicateSearchFiltersError)
                        } else {
                            Ok(Some(t@))
                        }
                    },
                    InternalSearchFilterExpression::Eq(p, _) => {
                        if self.filter_paths().contains(p@) {
                            Ok(text)
                        } else {
                            Err(SearchError::IncorrectFilterFieldError)
                        }
                    },
                },
            }
        }
    }

    /// Whether `conds` are the equalities `eqs` as terms of their filter fields.
    pub open spec fn conditions_are(
        &self,
        conds: Seq<CompiledFilterCondition>,
        eqs: Seq<(Seq<char>, Seq<u8>)>,
    ) -> bool {
        &&& conds.len() == eqs.len()
        &&& forall|i: int| 0 <= i < conds.len() ==> self.condition_is(#[trigger] conds[i], eqs[i])
    }

    /// Whether `cond` is the equality `eq` as a term of its filter field.
    pub open spec fn condition_is(&self, cond: CompiledFilterCondition, eq: (Seq<char>, Seq<u8>)) -> bool {
        exists|j: int|
            0 <= j < self.filter_fields@.len() && self.filter_fields@[j].0@ == eq.0 && must_is(
                cond,
                self.filter_fields@[j].1,
                eq.1,
            )
    }

    /// The field ID of filter field `path`, if it is one.
    pub fn filter_field_id(&self, path: &FieldPath) -> (r: Option<u32>)
        ensures
            r matches Some(id) ==> exists|j: int|
                0 <= j < self.filter_fields@.len() && self.filter_fields@[j].0@ == path@
                    && self.filter_fields@[j].1 == id,
            r is None <==> !self.filter_paths().contains(path@),
    {
        let mut j: usize = 0;
        while j < self.filter_fields.len()
            invariant
                0 <= j <= self.filter_fields@.len(),
                forall|k: int| 0 <= k < j ==> self.filter_fields@[k].0@ != path@,
            decreases self.filter_fields@.len() - j,
        {
            if self.filter_fields[j].0.equals(path) {
                assert(self.filter_paths()[j as int] == path@);
                return Some(self.filter_fields[j].1);
            }
            j = j + 1;
        }
        assert forall|k: int| 0 <= k < self.filter_paths().len() implies self.filter_paths()[k]
            != path@ by {
            assert(self.filter_paths()[k] == self.filter_fields@[k].0@);
        }
        None
    }
}

/// Tokens' views.
pub open spec fn strings_view(s: Seq<String>) -> Seq<Seq<char>> {
    s.map_values(|t: String| t@)
}

/// The read term for a token of the given shape.
fn text_read_term(token: &String, shape_exact: bool, max_distance: u8, prefix: bool) -> (r: TextQueryTerm)
    ensures
        r.token() == token@,
        r.shape() == (if shape_exact {
            TermShape { exact: true, max_distance: 0, prefix: false }
        } else {
            TermShape { exact: false, max_distance, prefix }
        }),
{
    if shape_exact {
        TextQueryTerm::Exact(token.clone())
    } else {
        TextQueryTerm::Fuzzy { token: token.clone(), max_distance, prefix }
    }
}

/// The number of typos a token of `char_count` characters tolerates.
pub fn typos_for_length(char_count: usize) -> (r: u8)
    ensures
        r == num_typos(char_count as nat),
{
    if char_count <= EXACT_SEARCH_MAX_WORD_LENGTH {
        0
    } else if char_count <= SINGLE_TYPO_SEARCH_MAX_WORD_LENGTH {
        1
    } else {
        2
    }
}

impl TantivySearchIndexSchema {
    /// Classifies each token by the typos it tolerates; the last token is a prefix.
    pub fn compile_tokens_with_typo_tolerance(search_field: u32, tokens: &Vec<String>) -> (r: Vec<QueryTerm>)
        ensures
            text_query_is(r@, search_field, strings_view(tokens@), SearchVersion::V2),
    {
        let ghost toks = strings_view(tokens@);
        let mut res: Vec<QueryTerm> = Vec::new();
        let n = tokens.len();
        let mut i: usize = 0;
        while i < n
            invariant
                0 <= i <= n,
                n == tokens@.len(),
                toks == strings_view(tokens@),
                res@.len() == i,
                forall|k: int|
                    0 <= k < i ==> #[trigger] res@[k].has_shape(
                        search_field,
                        toks[k],
                        token_shapes(toks, SearchVersion::V2)[k],
                    ),
            decreases n - i,
        {
            let text = &tokens[i];
            let term = Term::from_field_text(search_field, text.as_str());
            let char_count = text.as_str().unicode_len();
            let is_prefix = i + 1 == n;
            let num_typos = typos_for_length(char_count);
            assert(toks[i as int] == text@);
            if num_typos == 0 && !is_prefix {
                res.push(QueryTerm::Exact(term));
            } else {
                res.push(QueryTerm::Fuzzy { term, max_distance: num_typos, prefix: is_prefix });
            }
            i = i + 1;
        }
        res
    }

    /// The equalities of the first `n` filters, as (path, value) pairs.
    proof fn lemma_eq_filters_step(filters: Seq<InternalSearchFilterExpression>, n: int)
        requires
            0 <= n < filters.len(),
        ensures
            eq_filters(filters.take(n + 1)) == match filters[n] {
                InternalSearchFilterExpression::Eq(p, v) => eq_filters(filters.take(n)).push((p@, v@)),
                InternalSearchFilterExpression::Search(_, _) => eq_filters(filters.take(n)),
            },
    {
        assert(filters.take(n + 1).drop_last() =~= filters.take(n));
    }

    proof fn lemma_scan_error_stays(&self, filters: Seq<InternalSearchFilterExpression>, n: nat, m: nat)
        requires
            n <= m,
            self.scan_filters(filters, n) is Err,
        ensures
            self.scan_filters(filters, m) == self.scan_filters(filters, n),
        decreases m - n,
    {
        if n < m {
            self.lemma_scan_error_stays(filters, n, (m - 1) as nat);
        }
    }

    /// Validates a query against the schema, tokenizes its search text and
    /// classifies its tokens. Errors, by the first that applies: a filter
    /// violation (the first in order), a missing search filter, too many
    /// equality filters.
    pub fn compile(&self, query: &InternalSearch, version: SearchVersion) -> (r: Result<
        (CompiledQuery, QueryReads),
        SearchError,
    >)
        requires
            self.wf(),
        ensures
            match self.scan_filters(query.filters@, query.filters@.len()) {
                Err(e) => r == Err::<(CompiledQuery, QueryReads), SearchError>(e),
                Ok(None) => r == Err::<(CompiledQuery, QueryReads), SearchError>(
                    SearchError::MissingSearchFilterError,
                ),
                Ok(Some(text)) => if eq_filters(query.filters@).len() > MAX_FILTER_CONDITIONS {
                    r == Err::<(CompiledQuery, QueryReads), SearchError>(
                        SearchError::TooManyFilterConditionsInSearchQueryError,
                    )
                } else {
                    r matches Ok((q, reads)) && text_query_is(
                        q.text_query@,
                        self.search_field,
                        query_tokens(text),
                        version,
                    ) && text_reads_are(reads.text_queries@, self.search_path(), query_tokens(text), version)
                        && self.conditions_are(q.filter_conditions@, eq_filters(query.filters@))
                        && filter_reads_are(reads.filter_conditions@, eq_filters(query.filters@))
                },
            },
    {
        let ghost filters = query.filters@;
        let mut search_text: Option<&String> = None;
        let mut filter_conditions: Vec<CompiledFilterCondition> = Vec::new();
        let mut filter_reads: Vec<FilterConditionRead> = Vec::new();
        let n = query.filters.len();
        let mut i: usize = 0;
        assert(filters.take(0) =~= Seq::<InternalSearchFilterExpression>::empty());
        while i < n
            invariant
                0 <= i <= n,
                n == filters.len(),
                filters == query.filters@,
                self.scan_filters(filters, i as nat) == Ok::<Option<Seq<char>>, SearchError>(
                    match search_text {
                        Some(t) => Some(t@),
                        None => None,
                    },
                ),
                self.conditions_are(filter_conditions@, eq_filters(filters.take(i as int))),
                filter_reads_are(filter_reads@, eq_filters(filters.take(i as int))),
            decreases n - i,
        {
            proof {
                Self::lemma_eq_filters_step(filters, i as int);
            }
            match &query.filters[i] {
                InternalSearchFilterExpression::Search(field_path, text_query) => {
                    if !field_path.equals(&self.search_field_path) {
                        proof {
                            self.lemma_scan_error_stays(filters, (i + 1) as nat, n as nat);
                        }
                        return Err(SearchError::IncorrectSearchField);
                    }
                    if search_text.is_some() {
                        proof {
                            self.lemma_scan_error_stays(filters, (i + 1) as nat, n as nat);
                        }
                        return Err(SearchError::DuplicateSearchFiltersError);
                    }
                    search_text = Some(text_query);
                    assert(eq_filters(filters.take(i + 1)) == eq_filters(filters.take(i as int)));
                    assert(self.conditions_are(filter_conditions@, eq_filters(filters.take(i + 1))));
                },
                InternalSearchFilterExpression::Eq(field_path, value) => {
                    let field = match self.filter_field_id(field_path) {
                        Some(f) => f,
                        None => {
                            proof {
                                self.lemma_scan_error_stays(filters, (i + 1) as nat, n as nat);
                            }
                            return Err(SearchError::IncorrectFilterFieldError);
                        },
                    };
                    let ghost eqs = eq_filters(filters.take(i + 1));
                    assert(eqs == eq_filters(filters.take(i as int)).push((field_path@, value@)));
                    let ghost before = filter_conditions@;
                    filter_conditions.push(
                        CompiledFilterCondition::Must(Term::from_field_bytes(field, value)),
                    );
                    filter_reads.push(FilterConditionRead::Must(field_path.duplicate(), copy_bytes(value)));
                    proof {
                        assert forall|k: int| 0 <= k < filter_conditions@.len() implies self.condition_is(
                            #[trigger] filter_conditions@[k],
                            eqs[k],
                        ) by {
                            if k < before.len() {
                                assert(filter_conditions@[k] == before[k]);
                            } else {
                                assert(eqs[k] == (field_path@, value@));
                                let j0 = choose|j: int|
                                    0 <= j < self.filter_fields@.len() && self.filter_fields@[j].0@
                                        == field_path@ && self.filter_fields@[j].1 == field;
                                assert(must_is(filter_conditions@[k], self.filter_fields@[j0].1, eqs[k].1));
                            }
                        }
                        assert(self.conditions_are(filter_conditions@, eqs));
                    }
                },
            }
            i = i + 1;
        }
        assert(filters.take(n as int) =~= filters);
        let text = match search_text {
            Some(t) => t,
            None => {
                return Err(SearchError::MissingSearchFilterError);
            },
        };
        let ghost toks = query_tokens(text@);
        let analyzed_tokens = analyze(text.as_str());
        let mut tokens: Vec<String> = Vec::new();
        let mut k: usize = 0;
        while k < analyzed_tokens.len() && k < MAX_QUERY_TERMS
            invariant
                0 <= k <= analyzed_tokens@.len(),
                k <= MAX_QUERY_TERMS,
                analyzed_tokens@.len() == analyzed(text@).len(),
                forall|m: int|
                    0 <= m < analyzed_tokens@.len() ==> (#[trigger] analyzed_tokens@[m]).text@
                        == analyzed(text@)[m].0,
                tokens@.len() == k,
                forall|m: int| 0 <= m < k ==> (#[trigger] tokens@[m])@ == analyzed(text@)[m].0,
            decreases analyzed_tokens@.len() - k,
        {
            tokens.push(analyzed_tokens[k].text.clone());
            k = k + 1;
        }
        assert(strings_view(tokens@) =~= toks);
        let text_query = match version {
            SearchVersion::V1 => {
                let mut res: Vec<QueryTerm> = Vec::new();
                let mut m: usize = 0;
                while m < tokens.len()
                    invariant
                        0 <= m <= tokens@.len(),
                        toks == strings_view(tokens@),
                        version == SearchVersion::V1,
                        res@.len() == m,
                        forall|j: int|
                            0 <= j < m ==> #[trigger] res@[j].has_shape(
                                self.search_field,
                                toks[j],
                                token_shapes(toks, version)[j],
                            ),
                    decreases tokens@.len() - m,
                {
                    assert(toks[m as int] == tokens@[m as int]@);
                    res.push(QueryTerm::Exact(Term::from_field_text(self.search_field, tokens[m].as_str())));
                    m = m + 1;
                }
                res
            },
            SearchVersion::V2 => Self::compile_tokens_with_typo_tolerance(self.search_field, &tokens),
        };
        let mut text_reads: Vec<TextQueryTermRead> = Vec::new();
        let mut m: usize = 0;
        while m < text_query.len()
            invariant
                0 <= m <= text_query@.len(),
                text_query_is(text_query@, self.search_field, toks, version),
                toks == strings_view(tokens@),
                text_reads@.len() == m,
                forall|j: int|
                    0 <= j < m ==> (#[trigger] text_reads@[j]).field_path@ == self.search_path()
                        && text_reads@[j].term.token() == toks[j] && text_reads@[j].term.shape()
                        == token_shapes(toks, version)[j],
            decreases text_query@.len() - m,
        {
            let shape_exact = match &text_query[m] {
                QueryTerm::Exact(_) => true,
                QueryTerm::Fuzzy { .. } => false,
            };
            let (max_distance, prefix) = match &text_query[m] {
                QueryTerm::Exact(_) => (0u8, false),
                QueryTerm::Fuzzy { max_distance, prefix, .. } => (*max_distance, *prefix),
            };
            assert(text_query@[m as int].has_shape(self.search_field, toks[m as int], token_shapes(toks, version)[m as int]));
            assert(toks[m as int] == tokens@[m as int]@);
            let term = text_read_term(&tokens[m], shape_exact, max_distance, prefix);
            text_reads.push(TextQueryTermRead { field_path: self.search_field_path.duplicate(), term });
            m = m + 1;
        }
        if filter_conditions.len() > MAX_FILTER_CONDITIONS {
            return Err(SearchError::TooManyFilterConditionsInSearchQueryError);
        }
        let query = CompiledQuery { text_query, filter_conditions };
        let reads = QueryReads { text_queries: text_reads, filter_conditions: filter_reads };
        Ok((query, reads))
    }
}

/// The tokens a read set records, in order.
pub open spec fn read_tokens(reads: Seq<TextQueryTermRead>) -> Seq<Seq<char>> {
    Seq::new(reads.len(), |i: int| reads[i].term.token())
}

/// The equalities a read set records, in order.
pub open spec fn read_equalities(reads: Seq<FilterConditionRead>) -> Seq<(Seq<char>, Seq<u8>)> {
    Seq::new(
        reads.len(),
        |i: int|
            match reads[i] {
                FilterConditionRead::Must(p, v) => (p@, v@),
            },
    )
}

/// Compiling is idempotent on its read set: compiling the tokens and the
/// equalities that a compiled query's reads record, under the same version,
/// gives the same text terms with the same shapes, and the same conditions.
pub proof fn lemma_compile_idempotent(
    schema: TantivySearchIndexSchema,
    tokens: Seq<Seq<char>>,
    version: SearchVersion,
    first: CompiledQuery,
    reads: QueryReads,
    eqs: Seq<(Seq<char>, Seq<u8>)>,
    second: CompiledQuery,
)
    requires
        text_query_is(first.text_query@, schema.search_field, tokens, version),
        text_reads_are(reads.text_queries@, schema.search_path(), tokens, version),
        schema.conditions_are(first.filter_conditions@, eqs),
        filter_reads_are(reads.filter_conditions@, eqs),
        text_query_is(
            second.text_query@,
            schema.search_field,
            read_tokens(reads.text_queries@),
            version,
        ),
        schema.conditions_are(second.filter_conditions@, read_equalities(reads.filter_conditions@)),
    ensures
        second.text_query@.len() == first.text_query@.len(),
        forall|i: int|
            0 <= i < first.text_query@.len() ==> #[trigger] second.text_query@[i].has_shape(
                schema.search_field,
                tokens[i],
                token_shapes(tokens, version)[i],
            ),
        second.filter_conditions@.len() == first.filter_conditions@.len(),
        forall|i: int|
            0 <= i < first.filter_conditions@.len() ==> schema.condition_is(
                #[trigger] second.filter_conditions@[i],
                eqs[i],
            ),
{
    assert(read_tokens(reads.text_queries@) =~= tokens);
    assert(read_equalities(reads.filter_conditions@) =~= eqs);
}

} // verus!
