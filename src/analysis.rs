//! The analyzer and the schema builder, both provided by tantivy.
use vstd::prelude::*;
use tantivy::schema::{
    BytesOptions,
    IndexRecordOption,
    Schema,
    SchemaBuilder,
    TextFieldIndexing,
    TextOptions,
    FAST,
};
use tantivy::tokenizer::TokenizerManager;

verus! {

/// A token of an analyzed text: its normalized text and its position in the
/// token stream.
pub struct AnalyzedToken {
    pub text: String,
    pub position: usize,
}

/// The tokens (text, position) that tantivy's analyzer makes of a text.
pub uninterp spec fn analyzed(text: Seq<char>) -> Seq<(Seq<char>, usize)>;

/// Relies on tantivy's analyzer registered as `default` (split on
/// non-alphanumeric characters, drop tokens over 40 bytes, lower-case): the
/// tokens depend on the text alone, and an empty text has none.
#[verifier::external_body]
pub(crate) fn analyze(text: &str) -> (r: Vec<AnalyzedToken>)
    ensures
        r@.len() == analyzed(text@).len(),
        forall|i: int|
            0 <= i < r@.len() ==> (#[trigger] r@[i]).text@ == analyzed(text@)[i].0 && r@[i].position
                == analyzed(text@)[i].1,
        text@.len() == 0 ==> r@.len() == 0,
{
    let mut tokens = Vec::new();
    if let Some(analyzer) = TokenizerManager::default().get("default") {
        analyzer.token_stream(text).process(
            &mut |t| tokens.push(AnalyzedToken { text: t.text.clone(), position: t.position }),
        );
    }
    tokens
}

#[verifier::external_type_specification]
#[verifier::external_body]
pub struct ExSchemaBuilder(SchemaBuilder);

#[verifier::external_type_specification]
#[verifier::external_body]
pub struct ExSchema(Schema);

/// A name tantivy accepts for a field: not empty, not starting with `-`.
pub open spec fn valid_field_name(name: Seq<char>) -> bool {
    name.len() > 0 && name[0] != '-'
}

/// The names of the fields declared so far on a schema builder, in order.
pub uninterp spec fn declared_field_names(b: SchemaBuilder) -> Seq<Seq<char>>;

/// Relies on tantivy's `Schema::builder`: a builder with no field declared.
#[verifier::external_body]
pub(crate) fn new_schema_builder() -> (r: SchemaBuilder)
    ensures
        declared_field_names(r) == Seq::<Seq<char>>::empty(),
{
    Schema::builder()
}

/// Relies on `SchemaBuilder::add_bytes_field`: the new field's ID is the
/// number of fields declared before it; a repeated or invalid name panics. A fast field
/// when `fast`, else an indexed one.
#[verifier::external_body]
pub(crate) fn add_bytes_field(b: &mut SchemaBuilder, name: &str, fast: bool) -> (r: u32)
    requires
        !declared_field_names(*old(b)).contains(name@),
        declared_field_names(*old(b)).len() < u32::MAX,
        valid_field_name(name@),
    ensures
        declared_field_names(*final(b)) == declared_field_names(*old(b)).push(name@),
        r == declared_field_names(*old(b)).len(),
{
    let options = if fast {
        BytesOptions::default().set_fast()
    } else {
        BytesOptions::default().set_indexed()
    };
    b.add_bytes_field(name, options).field_id()
}

/// Relies on `SchemaBuilder::add_u64_field` with fast storage: the new field's
/// ID is the number of fields declared before it; a repeated or invalid name
/// panics.
#[verifier::external_body]
pub(crate) fn add_u64_field(b: &mut SchemaBuilder, name: &str) -> (r: u32)
    requires
        !declared_field_names(*old(b)).contains(name@),
        declared_field_names(*old(b)).len() < u32::MAX,
        valid_field_name(name@),
    ensures
        declared_field_names(*final(b)) == declared_field_names(*old(b)).push(name@),
        r == declared_field_names(*old(b)).len(),
{
    b.add_u64_field(name, FAST).field_id()
}

/// Relies on `SchemaBuilder::add_f64_field` with fast storage: the new field's
/// ID is the number of fields declared before it; a repeated or invalid name
/// panics.
#[verifier::external_body]
pub(crate) fn add_f64_field(b: &mut SchemaBuilder, name: &str) -> (r: u32)
    requires
        !declared_field_names(*old(b)).contains(name@),
        declared_field_names(*old(b)).len() < u32::MAX,
        valid_field_name(name@),
    ensures
        declared_field_names(*final(b)) == declared_field_names(*old(b)).push(name@),
        r == declared_field_names(*old(b)).len(),
{
    b.add_f64_field(name, FAST).field_id()
}

/// Relies on `SchemaBuilder::add_text_field`, indexed with the `default`
/// analyzer, field norms, frequencies and positions: the new field's ID is the
/// number of fields declared before it; a repeated or invalid name panics.
#[verifier::external_body]
pub(crate) fn add_text_field(b: &mut SchemaBuilder, name: &str) -> (r: u32)
    requires
        !declared_field_names(*old(b)).contains(name@),
        declared_field_names(*old(b)).len() < u32::MAX,
        valid_field_name(name@),
    ensures
        declared_field_names(*final(b)) == declared_field_names(*old(b)).push(name@),
        r == declared_field_names(*old(b)).len(),
{
    let indexing = TextFieldIndexing::default().set_tokenizer("default").set_fieldnorms(
        true,
    ).set_index_option(IndexRecordOption::WithFreqsAndPositions);
    b.add_text_field(name, TextOptions::default().set_indexing_options(indexing)).field_id()
}

/// Relies on `SchemaBuilder::build`, which freezes the declared fields.
#[verifier::external_body]
pub(crate) fn build_schema(b: SchemaBuilder) -> (r: Schema) {
    b.build()
}

} // verus!
