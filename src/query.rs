//! Queries: what a user asks, and the compiled form that the indexes run.
use vstd::prelude::*;
use crate::schema::FieldPath;
use crate::terms::Term;

verus! {

/// Which search semantics a query asks for. Only `V2` tolerates typos.
#[derive(Debug, Clone, Copy, PartialEq, Eq, Structural)]
pub enum SearchVersion {
    V1,
    V2,
}

/// One filter of a search query: a text search against a field, or an
/// equality on a filter field (its value in the database's canonical encoding).
pub enum InternalSearchFilterExpression {
    Search(FieldPath, String),
    Eq(FieldPath, Vec<u8>),
}

/// A search query against a named index.
pub struct InternalSearch {
    pub index_name: String,
    pub filters: Vec<InternalSearchFilterExpression>,
}

/// A term of the text part of a compiled query.
pub enum QueryTerm {
    Exact(Term),
    Fuzzy { term: Term, max_distance: u8, prefix: bool },
}

/// A conjunct of the filter part of a compiled query.
pub enum CompiledFilterCondition {
    Must(Term),
}

/// A validated, tokenized and classified query.
pub struct CompiledQuery {
    pub text_query: Vec<QueryTerm>,
    pub filter_conditions: Vec<CompiledFilterCondition>,
}

/// How a token is matched: exactly, or within an edit distance and
/// possibly as a prefix.
pub struct TermShape {
    pub exact: bool,
    pub max_distance: u8,
    pub prefix: bool,
}

/// The text query term of a read set.
pub enum TextQueryTerm {
    Exact(String),
    Fuzzy { token: String, max_distance: u8, prefix: bool },
}

/// One text term a query read.
pub struct TextQueryTermRead {
    pub field_path: FieldPath,
    pub term: TextQueryTerm,
}

/// One equality a query read.
pub enum FilterConditionRead {
    Must(FieldPath, Vec<u8>),
}

/// The read set of a query, by which cached results are invalidated.
pub struct QueryReads {
    pub text_queries: Vec<TextQueryTermRead>,
    pub filter_conditions: Vec<FilterConditionRead>,
}

impl QueryTerm {
    /// Whether this term matches token `token` of field `field` as `shape` says.
    pub open spec fn has_shape(&self, field: u32, token: Seq<char>, shape: TermShape) -> bool {
        match self {
            QueryTerm::Exact(term) => shape.exact && term.is_text(field, token),
            QueryTerm::Fuzzy { term, max_distance, prefix } => {
                &&& !shape.exact
                &&& *max_distance == shape.max_distance
                &&& *prefix == shape.prefix
                &&& term.is_text(field, token)
            },
        }
    }
}

impl TextQueryTerm {
    /// The token this read term holds.
    pub open spec fn token(&self) -> Seq<char> {
        match self {
            TextQueryTerm::Exact(t) => t@,
            TextQueryTerm::Fuzzy { token, .. } => token@,
        }
    }

    /// How this read term matches its token.
    pub open spec fn shape(&self) -> TermShape {
        match self {
            TextQueryTerm::Exact(_) => TermShape { exact: true, max_distance: 0, prefix: false },
            TextQueryTerm::Fuzzy { max_distance, prefix, .. } => TermShape {
                exact: false,
                max_distance: *max_distance,
                prefix: *prefix,
            },
        }
    }
}

} // verus!
