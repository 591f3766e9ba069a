//! Text-search query engine: schema and field identifiers, query compilation,
//! merging of the memory and disk tiers, and the key broker that seals the
//! tokens handed to clients.
use vstd::prelude::*;

pub mod analysis;
pub mod bm25;
pub mod broker;
pub mod codec;
pub mod compiler;
pub mod constants;
pub mod encryptor;
pub mod engine;
pub mod errors;
pub mod fuzzy;
pub mod payload;
pub mod query;
pub mod schema;
pub mod terms;

pub use broker::{
    AdminIdentity,
    AdminKey,
    Cursor,
    GetFileAuthorization,
    Identity,
    InstanceSecret,
    KeyBroker,
    KeyBrokerError,
    MemberId,
    PersistenceVersion,
    QueryJournal,
    StoreFileAuthorization,
    SystemIdentity,
    SystemKey,
    UserIdentity,
    UserIdentityAttributes,
};
pub use engine::CandidateRevision;
pub use errors::SearchError;
pub use payload::CursorPosition;
pub use query::{
    CompiledQuery,
    FilterConditionRead,
    InternalSearch,
    InternalSearchFilterExpression,
    QueryReads,
    QueryTerm,
    SearchVersion,
    TextQueryTermRead,
};
pub use schema::{
    DocumentLengths,
    FieldPath,
    FieldValue,
    IndexConfig,
    IndexDocument,
    SearchFileType,
    SearchIndexConfig,
    TantivySearchIndexSchema,
};
pub use terms::{DocumentTerm, FieldPosition, Term, TermValue};

verus! {

} // verus!
