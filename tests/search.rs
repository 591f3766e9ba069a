use std::cell::Cell;
use textsearch::engine::{search, Searcher};
use textsearch::CompiledQuery;
use textsearch::fuzzy::{expand_fuzzy_term, term_matches};
use textsearch::bm25::{combine_statistics, Bm25Statistics, Bm25StatisticsDiff};
use textsearch::compiler::typos_for_length;
use textsearch::constants::{MAX_FILTER_CONDITIONS, MAX_QUERY_TERMS, SEARCH_FIELD_ID};
use textsearch::engine::{disk_query_limit, merge_candidates, merge_search_results};
use textsearch::{
    CandidateRevision,
    DocumentTerm,
    FieldPath,
    FieldPosition,
    FieldValue,
    IndexConfig,
    IndexDocument,
    InternalSearch,
    InternalSearchFilterExpression,
    QueryTerm,
    SearchError,
    SearchIndexConfig,
    SearchVersion,
    TantivySearchIndexSchema,
    TermValue,
};

fn schema_with(search: &str, filters: &[&str]) -> TantivySearchIndexSchema {
    TantivySearchIndexSchema::new(&SearchIndexConfig::new(
        FieldPath::new(search),
        filters.iter().map(|f| FieldPath::new(f)).collect(),
    ))
}

fn search_query(filters: Vec<InternalSearchFilterExpression>) -> InternalSearch {
    InternalSearch { index_name: "messages.by_body".to_string(), filters }
}

fn text_of(t: &QueryTerm) -> (String, bool, u8, bool) {
    match t {
        QueryTerm::Exact(term) => (term.as_str().unwrap().to_string(), true, 0, false),
        QueryTerm::Fuzzy { term, max_distance, prefix } => {
            (term.as_str().unwrap().to_string(), false, *max_distance, *prefix)
        },
    }
}

#[test]
fn test_field_ids_dont_change() {
    let schema = schema_with("mySearchField", &[]);
    assert_eq!(schema.internal_id_field(), 0);
    assert_eq!(schema.ts_field(), 1);
    assert_eq!(schema.creation_time_field(), 2);
    assert_eq!(schema.search_field, SEARCH_FIELD_ID);
}

#[test]
fn filter_fields_follow_in_sorted_order() {
    let schema = schema_with("body", &["author", "channel"]);
    assert_eq!(schema.search_field, 3);
    assert_eq!(schema.filter_fields.len(), 2);
    assert_eq!(schema.filter_fields[0].0.as_str(), "author");
    assert_eq!(schema.filter_fields[0].1, 4);
    assert_eq!(schema.filter_fields[1].0.as_str(), "channel");
    assert_eq!(schema.filter_fields[1].1, 5);
}

#[test]
fn adding_a_later_filter_field_keeps_ids() {
    let before = schema_with("body", &["author"]);
    let after = schema_with("body", &["author", "channel"]);
    assert_eq!(before.search_field, after.search_field);
    assert_eq!(before.filter_fields[0].1, after.filter_fields[0].1);
}

#[test]
fn adding_an_earlier_filter_field_shifts_ids() {
    let before = schema_with("body", &["channel"]);
    let after = schema_with("body", &["author", "channel"]);
    assert_eq!(before.filter_fields[0].1, 4);
    assert_eq!(after.filter_fields[1].1, 5);
}

#[test]
fn config_round_trips() {
    let schema = schema_with("body", &["author", "channel"]);
    let config = schema.to_index_config();
    assert_eq!(config.search_field.as_str(), "body");
    let names: Vec<&str> = config.filter_fields.iter().map(|f| f.as_str()).collect();
    assert_eq!(names, vec!["author", "channel"]);
}

#[test]
fn new_for_index_refuses_other_indexes() {
    let err = TantivySearchIndexSchema::new_for_index(&IndexConfig::Database, "messages.by_id");
    assert!(matches!(err, Err(SearchError::IndexNotASearchIndexError)));
    let config = SearchIndexConfig { search_field: FieldPath::new("body"), filter_fields: vec![] };
    let ok = TantivySearchIndexSchema::new_for_index(&IndexConfig::Search(config), "messages.s");
    assert_eq!(ok.unwrap().search_field, 3);
}

fn document(body: Option<&str>, author: Option<&[u8]>) -> IndexDocument {
    let mut values = vec![];
    if let Some(b) = body {
        values.push((FieldPath::new("body"), FieldValue {
            text: Some(b.to_string()),
            encoded: b.as_bytes().to_vec(),
        }));
    }
    if let Some(a) = author {
        values.push((FieldPath::new("author"), FieldValue { text: None, encoded: a.to_vec() }));
    }
    IndexDocument { values }
}

#[test]
fn index_into_terms_tokenizes_and_lowercases() {
    let schema = schema_with("body", &["author"]);
    let terms = schema.index_into_terms(&document(Some("The Quick, brown fox"), Some(b"\x05ann"))).unwrap();
    assert_eq!(terms.len(), 5);
    let texts: Vec<String> = terms[..4]
        .iter()
        .map(|t| match &t.term().value {
            TermValue::Text(s) => s.clone(),
            TermValue::Bytes(_) => panic!("search term expected"),
        })
        .collect();
    assert_eq!(texts, vec!["the", "quick", "brown", "fox"]);
    for (i, t) in terms[..4].iter().enumerate() {
        assert_eq!(t.field_id(), 3);
        assert_eq!(u32::from(t.position()), i as u32);
    }
    match &terms[4] {
        DocumentTerm::Filter { term } => {
            assert_eq!(term.field, 4);
            assert!(matches!(&term.value, TermValue::Bytes(b) if b == b"\x05ann"));
        },
        DocumentTerm::Search { .. } => panic!("filter term expected"),
    }
    assert_eq!(terms[4].position(), FieldPosition::new_for_test(0));
}

#[test]
fn index_into_terms_without_search_text() {
    let schema = schema_with("body", &["author"]);
    let terms = schema.index_into_terms(&document(None, None)).unwrap();
    assert_eq!(terms.len(), 1);
    match &terms[0] {
        DocumentTerm::Filter { term } => assert!(matches!(&term.value, TermValue::Bytes(b) if b.is_empty())),
        DocumentTerm::Search { .. } => panic!("filter term expected"),
    }
}

#[test]
fn document_lengths_counts_bytes() {
    let schema = schema_with("body", &["author"]);
    let lengths = schema.document_lengths(&document(Some("héllo"), Some(b"abc")));
    assert_eq!(lengths.search_field, 6);
    assert_eq!(lengths.filter_fields.len(), 1);
    assert_eq!(lengths.filter_fields[0].1, 3);
    let empty = schema.document_lengths(&document(None, None));
    assert_eq!(empty.search_field, 0);
    assert_eq!(empty.filter_fields[0].1, 0);
}

#[test]
fn exact_single_token_query() {
    let schema = schema_with("body", &[]);
    let q = search_query(vec![InternalSearchFilterExpression::Search(
        FieldPath::new("body"),
        "quick".to_string(),
    )]);
    let (compiled, reads) = schema.compile(&q, SearchVersion::V2).unwrap();
    assert_eq!(compiled.text_query.len(), 1);
    assert_eq!(text_of(&compiled.text_query[0]), ("quick".to_string(), false, 1, true));
    assert_eq!(reads.text_queries.len(), 1);
    assert_eq!(reads.text_queries[0].field_path.as_str(), "body");
}

#[test]
fn typo_tolerance_promotes_on_length() {
    let schema = schema_with("body", &[]);
    let q = search_query(vec![InternalSearchFilterExpression::Search(
        FieldPath::new("body"),
        "the quikc brownfoxes jumps".to_string(),
    )]);
    let (compiled, _) = schema.compile(&q, SearchVersion::V2).unwrap();
    let terms: Vec<_> = compiled.text_query.iter().map(text_of).collect();
    assert_eq!(terms, vec![
        ("the".to_string(), true, 0, false),
        ("quikc".to_string(), false, 1, false),
        ("brownfoxes".to_string(), false, 2, false),
        ("jumps".to_string(), false, 1, true),
    ]);
}

#[test]
fn v1_terms_are_exact() {
    let schema = schema_with("body", &[]);
    let q = search_query(vec![InternalSearchFilterExpression::Search(
        FieldPath::new("body"),
        "quikc brownfoxes".to_string(),
    )]);
    let (compiled, _) = schema.compile(&q, SearchVersion::V1).unwrap();
    let terms: Vec<_> = compiled.text_query.iter().map(text_of).collect();
    assert_eq!(terms, vec![
        ("quikc".to_string(), true, 0, false),
        ("brownfoxes".to_string(), true, 0, false),
    ]);
}

#[test]
fn typos_by_length() {
    assert_eq!(typos_for_length(4), 0);
    assert_eq!(typos_for_length(5), 1);
    assert_eq!(typos_for_length(8), 1);
    assert_eq!(typos_for_length(9), 2);
}

#[test]
fn query_terms_are_truncated() {
    let schema = schema_with("body", &[]);
    let text: Vec<String> = (0..MAX_QUERY_TERMS + 4).map(|i| format!("w{i}")).collect();
    let q = search_query(vec![InternalSearchFilterExpression::Search(
        FieldPath::new("body"),
        text.join(" "),
    )]);
    let (compiled, reads) = schema.compile(&q, SearchVersion::V2).unwrap();
    assert_eq!(compiled.text_query.len(), MAX_QUERY_TERMS);
    assert_eq!(reads.text_queries.len(), MAX_QUERY_TERMS);
    assert_eq!(text_of(&compiled.text_query[MAX_QUERY_TERMS - 1]).0, format!("w{}", MAX_QUERY_TERMS - 1));
}

#[test]
fn duplicate_search_filter_rejected() {
    let schema = schema_with("body", &[]);
    let q = search_query(vec![
        InternalSearchFilterExpression::Search(FieldPath::new("body"), "a".to_string()),
        InternalSearchFilterExpression::Search(FieldPath::new("body"), "b".to_string()),
    ]);
    let err = schema.compile(&q, SearchVersion::V2).err().unwrap();
    assert_eq!(err, SearchError::DuplicateSearchFiltersError);
    assert_eq!(err.short_code(), "DuplicateSearchFiltersError");
}

#[test]
fn filter_on_non_indexed_field_rejected() {
    let schema = schema_with("body", &["author"]);
    let q = search_query(vec![
        InternalSearchFilterExpression::Search(FieldPath::new("body"), "a".to_string()),
        InternalSearchFilterExpression::Eq(FieldPath::new("not_indexed"), vec![1]),
    ]);
    let err = schema.compile(&q, SearchVersion::V2).err().unwrap();
    assert_eq!(err, SearchError::IncorrectFilterFieldError);
}

#[test]
fn search_against_other_field_rejected() {
    let schema = schema_with("body", &[]);
    let q = search_query(vec![InternalSearchFilterExpression::Search(
        FieldPath::new("title"),
        "a".to_string(),
    )]);
    assert_eq!(schema.compile(&q, SearchVersion::V2).err().unwrap(), SearchError::IncorrectSearchField);
}

#[test]
fn missing_search_filter_rejected() {
    let schema = schema_with("body", &["author"]);
    let q = search_query(vec![InternalSearchFilterExpression::Eq(FieldPath::new("author"), vec![1])]);
    let err = schema.compile(&q, SearchVersion::V2).err().unwrap();
    assert_eq!(err, SearchError::MissingSearchFilterError);
    assert!(err.is_user_error());
}

#[test]
fn too_many_filter_conditions_rejected() {
    let schema = schema_with("body", &["author"]);
    let mut filters = vec![InternalSearchFilterExpression::Search(FieldPath::new("body"), "a".to_string())];
    for i in 0..MAX_FILTER_CONDITIONS + 1 {
        filters.push(InternalSearchFilterExpression::Eq(FieldPath::new("author"), vec![i as u8]));
    }
    let err = schema.compile(&search_query(filters), SearchVersion::V2).err().unwrap();
    assert_eq!(err, SearchError::TooManyFilterConditionsInSearchQueryError);
}

#[test]
fn filter_conditions_keep_order_and_field_ids() {
    let schema = schema_with("body", &["author", "channel"]);
    let q = search_query(vec![
        InternalSearchFilterExpression::Eq(FieldPath::new("channel"), vec![7]),
        InternalSearchFilterExpression::Search(FieldPath::new("body"), "a".to_string()),
        InternalSearchFilterExpression::Eq(FieldPath::new("author"), vec![9]),
    ]);
    let (compiled, reads) = schema.compile(&q, SearchVersion::V2).unwrap();
    assert_eq!(compiled.filter_conditions.len(), 2);
    let fields: Vec<u32> = compiled
        .filter_conditions
        .iter()
        .map(|c| match c {
            textsearch::query::CompiledFilterCondition::Must(t) => t.field,
        })
        .collect();
    assert_eq!(fields, vec![5, 4]);
    assert_eq!(reads.filter_conditions.len(), 2);
}

fn cand(id: u128, score: u64, created: u64) -> CandidateRevision {
    CandidateRevision { id, ts: 1, score_key: score, creation_key: created }
}

#[test]
fn merge_orders_by_score_then_creation_then_id() {
    let memory = vec![cand(5, 10, 1)];
    let disk = vec![cand(3, 20, 1), cand(2, 10, 2), cand(1, 10, 1)];
    let merged = merge_candidates(memory, disk, &vec![], 10);
    let ids: Vec<u128> = merged.iter().map(|c| c.id).collect();
    assert_eq!(ids, vec![3, 2, 1, 5]);
}

#[test]
fn tombstoned_disk_results_are_dropped() {
    let memory = vec![cand(7, 1, 1)];
    let disk = vec![cand(1, 9, 1), cand(2, 8, 1), cand(3, 7, 1)];
    let merged = merge_candidates(memory, disk, &vec![2], 10);
    let ids: Vec<u128> = merged.iter().map(|c| c.id).collect();
    assert_eq!(ids, vec![1, 3, 7]);
}

#[test]
fn tombstone_overfetch() {
    let k = 10;
    let tombstoned: Vec<u128> = vec![4, 50, 77];
    let limit = k + tombstoned.len();
    let disk: Vec<CandidateRevision> =
        (0..100u128).map(|i| cand(i, 1000 - i as u64, 0)).take(limit).collect();
    assert_eq!(disk.len(), 13);
    let merged = merge_candidates(vec![], disk, &tombstoned, k);
    assert_eq!(merged.len(), 10);
    assert!(merged.iter().all(|c| !tombstoned.contains(&c.id)));
}

#[test]
fn disk_limit_adds_overfetch() {
    assert_eq!(disk_query_limit(3), textsearch::constants::MAX_CANDIDATE_REVISIONS + 3);
    let merged = merge_search_results(vec![], vec![cand(1, 1, 1)], &vec![]);
    assert_eq!(merged.len(), 1);
}

#[test]
fn merge_is_deterministic() {
    let make = || (vec![cand(9, 5, 5)], vec![cand(1, 5, 5), cand(2, 6, 0)]);
    let (m1, d1) = make();
    let (m2, d2) = make();
    assert_eq!(merge_candidates(m1, d1, &vec![], 2), merge_candidates(m2, d2, &vec![], 2));
}

#[test]
fn global_statistics_add_the_memory_difference() {
    let disk = Bm25Statistics { num_documents: 100, num_search_tokens: 1000, doc_frequencies: vec![10, 0, 5] };
    let diff = Bm25StatisticsDiff {
        num_documents_diff: -3,
        num_search_tokens_diff: 25,
        doc_frequency_diffs: vec![-2, 4, 0],
    };
    let global = combine_statistics(&disk, &diff).unwrap();
    assert_eq!(global.num_documents, 97);
    assert_eq!(global.num_search_tokens, 1025);
    assert_eq!(global.doc_frequencies, vec![8, 4, 5]);
    let bad = Bm25StatisticsDiff { num_documents_diff: 0, num_search_tokens_diff: 0, doc_frequency_diffs: vec![-11, 0, 0] };
    assert_eq!(combine_statistics(&disk, &bad).err(), Some(SearchError::InconsistentStatistics));
}

#[test]
fn config_sorts_and_dedups_filter_fields() {
    let config = SearchIndexConfig::new(FieldPath::new("body"), vec![
        FieldPath::new("channel"),
        FieldPath::new("author"),
        FieldPath::new("channel"),
        FieldPath::new("a.b"),
        FieldPath::new("é"),
    ]);
    let names: Vec<&str> = config.filter_fields.iter().map(|f| f.as_str()).collect();
    assert_eq!(names, vec!["a.b", "author", "channel", "é"]);
    assert!(FieldPath::new("a").less_than(&FieldPath::new("ab")));
    assert!(!FieldPath::new("b").less_than(&FieldPath::new("ab")));
    assert!(!FieldPath::new("x").less_than(&FieldPath::new("x")));
}

#[test]
fn typo_query_matches_through_a_prefix() {
    assert!(term_matches("quikc", "quick", 1, true));
    assert!(!term_matches("quikc", "quick", 1, false));
    assert!(term_matches("quikc", "quick", 2, false));
    assert!(term_matches("qui", "quick", 0, true));
    assert!(!term_matches("quack", "lazy", 2, true));
    assert!(term_matches("", "anything", 0, true));
    assert!(term_matches("héllo", "hello", 1, false));
}

#[test]
fn fuzzy_expansion_keeps_dictionary_order_and_bound() {
    let dictionary: Vec<String> = ["brown", "fox", "quick", "quickly", "quiet", "quirk"]
        .iter()
        .map(|s| s.to_string())
        .collect();
    assert_eq!(expand_fuzzy_term("quikc", &dictionary, 1, true, 10), vec![2, 3]);
    assert_eq!(expand_fuzzy_term("quick", &dictionary, 1, false, 10), vec![2, 5]);
    assert_eq!(expand_fuzzy_term("quick", &dictionary, 1, false, 1), vec![2]);
    assert!(expand_fuzzy_term("zzzzzz", &dictionary, 1, false, 10).is_empty());
}

struct FakeDisk {
    matches: Vec<CandidateRevision>,
    asked: Cell<usize>,
}

impl Searcher for FakeDisk {
    fn execute_query(&self, _query: &CompiledQuery, limit: usize) -> Result<Vec<CandidateRevision>, SearchError> {
        self.asked.set(limit);
        Ok(self.matches.iter().take(limit).cloned().collect())
    }
}

#[test]
fn search_overfetches_by_tombstoned_matches() {
    let k = textsearch::constants::MAX_CANDIDATE_REVISIONS;
    let disk = FakeDisk {
        matches: (0..(k as u128 + 100)).map(|i| cand(i, 1_000_000 - i as u64, 0)).collect(),
        asked: Cell::new(0),
    };
    let tombstoned: Vec<u128> = vec![0, 5, 9];
    let query = CompiledQuery { text_query: vec![], filter_conditions: vec![] };
    let result = search(&disk, &query, vec![], &tombstoned).unwrap();
    assert_eq!(disk.asked.get(), k + 3);
    assert_eq!(result.len(), k);
    assert!(result.iter().all(|c| !tombstoned.contains(&c.id)));
}
