//! The schema of one search index: which document paths are indexed, and the
//! field IDs they have in every on-disk segment.
use vstd::prelude::*;
use vstd::utf8::{decode_utf8, encode_utf8, encode_utf8_decode_utf8};
use vstd::string::StringSliceAdditionalSpecFns;
use tantivy::schema::Schema;
use crate::analysis::{
    add_bytes_field,
    add_f64_field,
    add_text_field,
    add_u64_field,
    build_schema,
    declared_field_names,
    new_schema_builder,
};
use crate::analysis::{analyze, analyzed};
use crate::errors::SearchError;
use crate::terms::{copy_bytes, DocumentTerm, FieldPosition, Term};
use crate::constants::{
    CREATION_TIME_FIELD_NAME,
    INTERNAL_ID_FIELD_NAME,
    TS_FIELD_NAME,
    CREATION_TIME_FIELD_ID,
    FIRST_FILTER_FIELD_ID,
    INTERNAL_ID_FIELD_ID,
    SEARCH_FIELD_ID,
    TS_FIELD_ID,
};

verus! {

/// Strict lexicographic order on byte strings.
pub open spec fn bytes_lt(a: Seq<u8>, b: Seq<u8>) -> bool
    decreases a.len(),
{
    if a.len() == 0 {
        b.len() > 0
    } else if b.len() == 0 {
        false
    } else if a[0] != b[0] {
        a[0] < b[0]
    } else {
        bytes_lt(a.drop_first(), b.drop_first())
    }
}

/// The order of field paths: that of their UTF-8 bytes.
pub open spec fn path_lt(a: Seq<char>, b: Seq<char>) -> bool {
    bytes_lt(encode_utf8(a), encode_utf8(b))
}

pub proof fn lemma_bytes_lt_irreflexive(a: Seq<u8>)
    ensures
        !bytes_lt(a, a),
    decreases a.len(),
{
    if a.len() > 0 {
        lemma_bytes_lt_irreflexive(a.drop_first());
    }
}

pub proof fn lemma_bytes_lt_transitive(a: Seq<u8>, b: Seq<u8>, c: Seq<u8>)
    requires
        bytes_lt(a, b),
        bytes_lt(b, c),
    ensures
        bytes_lt(a, c),
    decreases a.len(),
{
    if a.len() > 0 && b.len() > 0 && c.len() > 0 && a[0] == b[0] && b[0] == c[0] {
        lemma_bytes_lt_transitive(a.drop_first(), b.drop_first(), c.drop_first());
    }
}

pub proof fn lemma_bytes_lt_total(a: Seq<u8>, b: Seq<u8>)
    requires
        a != b,
    ensures
        bytes_lt(a, b) || bytes_lt(b, a),
    decreases a.len(),
{
    if a.len() == 0 && b.len() == 0 {
        assert(a =~= b);
    } else if a.len() > 0 && b.len() > 0 && a[0] == b[0] {
        if a.drop_first() =~= b.drop_first() {
            assert(a =~= b) by {
                assert forall|i: int| 0 <= i < a.len() implies a[i] == b[i] by {
                    if i > 0 {
                        assert(a[i] == a.drop_first()[i - 1]);
                        assert(b[i] == b.drop_first()[i - 1]);
                    }
                }
            }
        } else {
            lemma_bytes_lt_total(a.drop_first(), b.drop_first());
        }
    }
}

/// Paths in their order are totally ordered.
proof fn lemma_path_lt_total(a: Seq<char>, b: Seq<char>)
    requires
        a != b,
    ensures
        path_lt(a, b) || path_lt(b, a),
{
    encode_utf8_decode_utf8(a);
    encode_utf8_decode_utf8(b);
    lemma_bytes_lt_total(encode_utf8(a), encode_utf8(b));
}

/// A dotted path into a document's nested value.
pub struct FieldPath {
    path: String,
}

impl View for FieldPath {
    type V = Seq<char>;

    closed spec fn view(&self) -> Seq<char> {
        self.path@
    }
}

impl FieldPath {
    pub fn new(path: &str) -> (r: FieldPath)
        ensures
            r@ == path@,
    {
        FieldPath { path: path.to_owned() }
    }

    pub fn as_str(&self) -> (r: &str)
        ensures
            r@ == self@,
    {
        self.path.as_str()
    }

    /// A second value of the same path.
    pub fn duplicate(&self) -> (r: FieldPath)
        ensures
            r@ == self@,
    {
        FieldPath { path: self.path.clone() }
    }

    pub fn equals(&self, other: &FieldPath) -> (r: bool)
        ensures
            r == (self@ == other@),
    {
        self.path == other.path
    }

    /// Whether this path sorts before `other`.
    pub fn less_than(&self, other: &FieldPath) -> (r: bool)
        ensures
            r == path_lt(self@, other@),
    {
        let a = self.path.as_str().as_bytes();
        let b = other.path.as_str().as_bytes();
        let alen = a.len();
        let blen = b.len();
        let mut i: usize = 0;
        assert(a@.skip(0) =~= a@ && b@.skip(0) =~= b@);
        while i < alen && i < blen
            invariant
                0 <= i <= alen,
                i <= blen,
                alen == a@.len(),
                blen == b@.len(),
                a@ == encode_utf8(self@),
                b@ == encode_utf8(other@),
                bytes_lt(a@, b@) == bytes_lt(a@.skip(i as int), b@.skip(i as int)),
            decreases alen - i,
        {
            let x = a[i];
            let y = b[i];
            assert(a@.skip(i as int)[0] == x && b@.skip(i as int)[0] == y);
            if x != y {
                return x < y;
            }
            assert(a@.skip(i as int).drop_first() =~= a@.skip(i + 1));
            assert(b@.skip(i as int).drop_first() =~= b@.skip(i + 1));
            i = i + 1;
        }
        i == alen && i < blen
    }
}

/// The views of a sequence of paths.
pub open spec fn paths_view(s: Seq<FieldPath>) -> Seq<Seq<char>> {
    s.map_values(|p: FieldPath| p@)
}

/// Paths in strictly increasing order, as a set of paths iterates.
pub open spec fn strictly_sorted(s: Seq<Seq<char>>) -> bool {
    forall|i: int| 0 <= i < s.len() - 1 ==> #[trigger] path_lt(s[i], s[i + 1])
}

proof fn lemma_sorted_distinct(s: Seq<Seq<char>>, i: int, j: int)
    requires
        strictly_sorted(s),
        0 <= i < j < s.len(),
    ensures
        path_lt(s[i], s[j]),
        s[i] != s[j],
    decreases j - i,
{
    let k = j - 1;
    assert(path_lt(s[k], s[k + 1]));
    assert(k + 1 == j);
    if i < j - 1 {
        lemma_sorted_distinct(s, i, j - 1);
        lemma_bytes_lt_transitive(encode_utf8(s[i]), encode_utf8(s[j - 1]), encode_utf8(s[j]));
    }
    if s[i] == s[j] {
        lemma_bytes_lt_irreflexive(encode_utf8(s[i]));
    }
}

/// What a search index indexes: one text field, and a set of filter fields
/// held in sorted order.
pub struct SearchIndexConfig {
    pub search_field: FieldPath,
    pub filter_fields: Vec<FieldPath>,
}

impl SearchIndexConfig {
    pub open spec fn filter_paths(&self) -> Seq<Seq<char>> {
        paths_view(self.filter_fields@)
    }

    /// The filter fields form a set, held in its sorted order.
    pub open spec fn wf(&self) -> bool {
        &&& strictly_sorted(self.filter_paths())
        &&& self.filter_fields@.len() + FIRST_FILTER_FIELD_ID <= u32::MAX
    }
}

impl SearchIndexConfig {
    /// The configuration of a search field and a set of filter fields, which
    /// are held sorted and without repeats.
    pub fn new(search_field: FieldPath, filter_fields: Vec<FieldPath>) -> (r: SearchIndexConfig)
        requires
            filter_fields@.len() + FIRST_FILTER_FIELD_ID <= u32::MAX,
        ensures
            r.wf(),
            r.search_field@ == search_field@,
            forall|p: Seq<char>| #[trigger] r.filter_paths().contains(p) <==> paths_view(filter_fields@).contains(p),
    {
        let ghost input = paths_view(filter_fields@);
        let mut sorted: Vec<FieldPath> = Vec::new();
        let mut i: usize = 0;
        while i < filter_fields.len()
            invariant
                0 <= i <= filter_fields@.len(),
                input == paths_view(filter_fields@),
                strictly_sorted(paths_view(sorted@)),
                sorted@.len() <= i,
                filter_fields@.len() + FIRST_FILTER_FIELD_ID <= u32::MAX,
                forall|p: Seq<char>| #[trigger] paths_view(sorted@).contains(p) <==> input.take(i as int).contains(p),
            decreases filter_fields@.len() - i,
        {
            let p = &filter_fields[i];
            let ghost s = paths_view(sorted@);
            let mut k: usize = 0;
            while k < sorted.len() && sorted[k].less_than(p)
                invariant
                    0 <= k <= sorted@.len(),
                    s == paths_view(sorted@),
                    forall|m: int| 0 <= m < k ==> path_lt(#[trigger] s[m], p@),
                decreases sorted@.len() - k,
            {
                k = k + 1;
            }
            let duplicate = k < sorted.len() && sorted[k].equals(p);
            proof {
                assert(input.take(i + 1) =~= input.take(i as int).push(p@));
                assert(input[i as int] == p@);
                assert forall|q: Seq<char>| #[trigger] input.take(i + 1).contains(q) <==> (input.take(
                    i as int,
                ).contains(q) || q == p@) by {
                    let u = input.take(i as int);
                    let w = input.take(i + 1);
                    if w.contains(q) && q != p@ {
                        let j = choose|j: int| 0 <= j < w.len() && w[j] == q;
                        assert(j < i);
                        assert(u[j] == q);
                    }
                    if u.contains(q) {
                        let j = choose|j: int| 0 <= j < u.len() && u[j] == q;
                        assert(w[j] == q);
                    }
                    if q == p@ {
                        assert(w[i as int] == q);
                    }
                }
            }
            if !duplicate {
                sorted.insert(k, p.duplicate());
                proof {
                    let t = paths_view(sorted@);
                    assert(t =~= s.insert(k as int, p@));
                    if k < s.len() {
                        assert(!path_lt(s[k as int], p@));
                        assert(s[k as int] != p@);
                        lemma_path_lt_total(s[k as int], p@);
                        assert(path_lt(p@, s[k as int]));
                    }
                    if k > 0 {
                        assert(path_lt(s[k - 1], p@));
                    }
                    assert forall|m: int| 0 <= m < t.len() - 1 implies #[trigger] path_lt(t[m], t[m + 1]) by {
                        if m < k - 1 {
                            assert(t[m] == s[m] && t[m + 1] == s[m + 1]);
                            assert(path_lt(s[m], s[m + 1]));
                        } else if m == k - 1 {
                            assert(t[m] == s[m] && t[m + 1] == p@);
                        } else if m == k {
                            assert(t[m] == p@ && t[m + 1] == s[m]);
                        } else {
                            let j = m - 1;
                            assert(t[m] == s[j] && t[m + 1] == s[j + 1]);
                            assert(path_lt(s[j], s[j + 1]));
                        }
                    }
                    assert forall|q: Seq<char>| #[trigger] t.contains(q) <==> input.take(i + 1).contains(q) by {
                        if t.contains(q) && q != p@ {
                            let j = choose|j: int| 0 <= j < t.len() && t[j] == q;
                            if j < k {
                                assert(s[j] == q);
                            } else {
                                assert(s[j - 1] == q);
                            }
                            assert(s.contains(q));
                        }
                        if s.contains(q) {
                            let j = choose|j: int| 0 <= j < s.len() && s[j] == q;
                            if j < k {
                                assert(t[j] == q);
                            } else {
                                assert(t[j + 1] == q);
                            }
                        }
                        if q == p@ {
                            assert(t[k as int] == q);
                        }
                    }
                }
            } else {
                proof {
                    assert(s[k as int] == p@);
                    assert forall|q: Seq<char>| #[trigger] s.contains(q) <==> input.take(i + 1).contains(q) by {
                        if q == p@ {
                            assert(s.contains(q));
                        }
                    }
                }
            }
            i = i + 1;
        }
        assert(input.take(filter_fields@.len() as int) =~= input);
        SearchIndexConfig { search_field, filter_fields: sorted }
    }
}

/// The name under which the search field is declared.
pub open spec fn search_field_name(path: Seq<char>) -> Seq<char> {
    "user/search/"@ + path
}

/// The name under which a filter field is declared.
pub open spec fn filter_field_name(path: Seq<char>) -> Seq<char> {
    "user/filter/"@ + path
}

/// The names of all fields of a schema, in declaration order.
pub open spec fn schema_field_names(search: Seq<char>, filters: Seq<Seq<char>>) -> Seq<Seq<char>> {
    seq![INTERNAL_ID_FIELD_NAME@, TS_FIELD_NAME@, CREATION_TIME_FIELD_NAME@, search_field_name(search)]
        + filters.map_values(|f: Seq<char>| filter_field_name(f))
}

/// The schema of one search index.
pub struct TantivySearchIndexSchema {
    pub internal_id_field: u32,
    pub ts_field: u32,
    pub creation_time_field: u32,
    pub search_field_path: FieldPath,
    pub search_field: u32,
    /// Each filter field with its field ID, in sorted order of the paths.
    pub filter_fields: Vec<(FieldPath, u32)>,
    /// The segment schema that declared these fields.
    pub schema: Schema,
}

impl TantivySearchIndexSchema {
    pub open spec fn search_path(&self) -> Seq<char> {
        self.search_field_path@
    }

    pub open spec fn filter_paths(&self) -> Seq<Seq<char>> {
        self.filter_fields@.map_values(|e: (FieldPath, u32)| e.0@)
    }

    /// Field IDs as the fixed layout assigns them: the three system fields,
    /// the search field, then the filter fields in sorted order.
    pub open spec fn wf(&self) -> bool {
        &&& self.internal_id_field == INTERNAL_ID_FIELD_ID
        &&& self.ts_field == TS_FIELD_ID
        &&& self.creation_time_field == CREATION_TIME_FIELD_ID
        &&& self.search_field == SEARCH_FIELD_ID
        &&& strictly_sorted(self.filter_paths())
        &&& self.filter_fields@.len() + FIRST_FILTER_FIELD_ID <= u32::MAX
        &&& forall|i: int|
            0 <= i < self.filter_fields@.len() ==> #[trigger] self.filter_fields@[i].1
                == FIRST_FILTER_FIELD_ID + i
    }

    pub fn new(index_config: &SearchIndexConfig) -> (r: TantivySearchIndexSchema)
        requires
            index_config.wf(),
        ensures
            r.wf(),
            r.search_path() == index_config.search_field@,
            r.filter_paths() == index_config.filter_paths(),
    {
        let ghost search = index_config.search_field@;
        let ghost filters = index_config.filter_paths();
        proof {
            reveal_strlit("internal_id");
            reveal_strlit("ts");
            reveal_strlit("creation_time");
            reveal_strlit("user/search/");
            reveal_strlit("user/filter/");
            assert("ts"@.len() == 2 && "internal_id"@.len() == 11 && "creation_time"@.len() == 13);
            assert("ts"@ != "internal_id"@);
            assert("creation_time"@ != "internal_id"@ && "creation_time"@ != "ts"@);
            assert("internal_id"@[0] == 'i' && "ts"@[0] == 't' && "creation_time"@[0] == 'c');
        }
        let mut builder = new_schema_builder();
        let internal_id_field = add_bytes_field(&mut builder, INTERNAL_ID_FIELD_NAME, true);
        let ts_field = add_u64_field(&mut builder, TS_FIELD_NAME);
        let creation_time_field = add_f64_field(&mut builder, CREATION_TIME_FIELD_NAME);
        let mut search_name = "user/search/".to_owned();
        search_name.append(index_config.search_field.as_str());
        let search_field = add_text_field(&mut builder, search_name.as_str());
        assert(declared_field_names(builder) =~= schema_field_names(search, filters.take(0)));

        let mut filter_fields: Vec<(FieldPath, u32)> = Vec::new();
        let n = index_config.filter_fields.len();
        let mut i: usize = 0;
        while i < n
            invariant
                0 <= i <= n,
                n == index_config.filter_fields@.len(),
                n + FIRST_FILTER_FIELD_ID <= u32::MAX,
                filters == index_config.filter_paths(),
                strictly_sorted(filters),
                declared_field_names(builder) == schema_field_names(search, filters.take(i as int)),
                filter_fields@.len() == i,
                forall|k: int|
                    0 <= k < i ==> (#[trigger] filter_fields@[k]).0@ == filters[k]
                        && filter_fields@[k].1 == FIRST_FILTER_FIELD_ID + k,
            decreases n - i,
        {
            let path = &index_config.filter_fields[i];
            let mut name = "user/filter/".to_owned();
            name.append(path.as_str());
            proof {
                reveal_strlit("internal_id");
                reveal_strlit("ts");
                reveal_strlit("creation_time");
                reveal_strlit("user/search/");
                reveal_strlit("user/filter/");
                let names = declared_field_names(builder);
                assert("user/filter/"@ =~= seq!['u', 's', 'e', 'r', '/', 'f', 'i', 'l', 't', 'e', 'r', '/']);
                assert("user/search/"@ =~= seq!['u', 's', 'e', 'r', '/', 's', 'e', 'a', 'r', 'c', 'h', '/']);
                assert("internal_id"@[0] == 'i');
                assert("ts"@[0] == 't');
                assert("creation_time"@[0] == 'c');
                assert(name@ == filter_field_name(filters[i as int]));
                assert(name@[5] == 'f');
                if names.contains(name@) {
                    let k = choose|k: int| 0 <= k < names.len() && names[k] == name@;
                    if k < 4 {
                        assert(names[k][0] != name@[0] || names[k][5] != name@[5]);
                    } else {
                        lemma_sorted_distinct(filters, k - 4, i as int);
                        assert(names[k] == filter_field_name(filters[k - 4]));
                        assert(names[k].subrange(12, names[k].len() as int) =~= filters[k - 4]);
                        assert(name@.subrange(12, name@.len() as int) =~= filters[i as int]);
                    }
                }
            }
            let id = add_bytes_field(&mut builder, name.as_str(), false);
            filter_fields.push((path.duplicate(), id));
            i = i + 1;
            assert(declared_field_names(builder) =~= schema_field_names(search, filters.take(i as int)));
        }
        let schema = build_schema(builder);
        assert(filter_fields@.map_values(|e: (FieldPath, u32)| e.0@) =~= filters);
        TantivySearchIndexSchema {
            internal_id_field,
            ts_field,
            creation_time_field,
            search_field_path: index_config.search_field.duplicate(),
            search_field,
            filter_fields,
            schema,
        }
    }
}

/// A value of a document at some path: its text when it is a string, and the
/// database's canonical encoding of it.
pub struct FieldValue {
    pub text: Option<String>,
    pub encoded: Vec<u8>,
}

/// The values of a document at the paths it holds.
pub struct IndexDocument {
    pub values: Vec<(FieldPath, FieldValue)>,
}

/// The value at `path`: that of the first entry with this path.
pub open spec fn lookup_value(values: Seq<(FieldPath, FieldValue)>, path: Seq<char>) -> Option<
    FieldValue,
>
    decreases values.len(),
{
    if values.len() == 0 {
        None
    } else if values[0].0@ == path {
        Some(values[0].1)
    } else {
        lookup_value(values.drop_first(), path)
    }
}

impl IndexDocument {
    /// The string at `path`, if the document holds one there.
    pub open spec fn text_at(&self, path: Seq<char>) -> Option<Seq<char>> {
        match lookup_value(self.values@, path) {
            Some(v) => match v.text {
                Some(t) => Some(t@),
                None => None,
            },
            None => None,
        }
    }

    /// The encoded value at `path`; an absent value encodes as the empty
    /// string, which no present value's encoding is.
    pub open spec fn encoded_at(&self, path: Seq<char>) -> Seq<u8> {
        match lookup_value(self.values@, path) {
            Some(v) => v.encoded@,
            None => Seq::empty(),
        }
    }

    pub fn get_path(&self, path: &FieldPath) -> (r: Option<&FieldValue>)
        ensures
            r == match lookup_value(self.values@, path@) {
                Some(v) => Some(&v),
                None => None::<&FieldValue>,
            },
    {
        let mut i: usize = 0;
        assert(self.values@.skip(0) =~= self.values@);
        while i < self.values.len()
            invariant
                0 <= i <= self.values@.len(),
                lookup_value(self.values@, path@) == lookup_value(self.values@.skip(i as int), path@),
            decreases self.values@.len() - i,
        {
            assert(self.values@.skip(i as int).drop_first() =~= self.values@.skip(i + 1));
            if self.values[i].0.equals(path) {
                return Some(&self.values[i].1);
            }
            i = i + 1;
        }
        None
    }
}

/// Lengths of a document's indexed values, for length normalization.
pub struct DocumentLengths {
    pub search_field: usize,
    pub filter_fields: Vec<(FieldPath, usize)>,
}

/// What kind of index an index is.
pub enum IndexConfig {
    Database,
    Search(SearchIndexConfig),
    Vector,
}

/// The kinds of files a search index stores.
#[derive(Clone, Copy, Debug, PartialEq, Eq, Hash, Structural)]
pub enum SearchFileType {
    VectorSegment,
    FragmentedVectorSegment,
    VectorDeletedBitset,
    VectorIdTracker,
    Text,
}

/// Whether every token position fits in 32 bits.
pub open spec fn positions_fit_u32(tokens: Seq<(Seq<char>, usize)>) -> bool {
    forall|i: int| 0 <= i < tokens.len() ==> (#[trigger] tokens[i]).1 <= u32::MAX
}

impl TantivySearchIndexSchema {
    pub fn new_for_index(index: &IndexConfig, printable_index_name: &str) -> (r: Result<
        TantivySearchIndexSchema,
        SearchError,
    >)
        requires
            index matches IndexConfig::Search(c) ==> c.wf(),
        ensures
            match index {
                IndexConfig::Search(c) => r matches Ok(s) && s.wf() && s.search_path()
                    == c.search_field@ && s.filter_paths() == c.filter_paths(),
                _ => r == Err::<TantivySearchIndexSchema, SearchError>(
                    SearchError::IndexNotASearchIndexError,
                ),
            },
    {
        match index {
            IndexConfig::Search(c) => Ok(Self::new(c)),
            _ => Err(SearchError::IndexNotASearchIndexError),
        }
    }

    pub fn internal_id_field(&self) -> (r: u32)
        ensures
            r == self.internal_id_field,
    {
        self.internal_id_field
    }

    pub fn ts_field(&self) -> (r: u32)
        ensures
            r == self.ts_field,
    {
        self.ts_field
    }

    pub fn creation_time_field(&self) -> (r: u32)
        ensures
            r == self.creation_time_field,
    {
        self.creation_time_field
    }

    pub fn to_index_config(&self) -> (r: SearchIndexConfig)
        requires
            self.wf(),
        ensures
            r.wf(),
            r.search_field@ == self.search_path(),
            r.filter_paths() == self.filter_paths(),
    {
        let mut filter_fields: Vec<FieldPath> = Vec::new();
        let mut i: usize = 0;
        while i < self.filter_fields.len()
            invariant
                0 <= i <= self.filter_fields@.len(),
                filter_fields@.len() == i,
                paths_view(filter_fields@) == self.filter_paths().take(i as int),
            decreases self.filter_fields@.len() - i,
        {
            let ghost before = filter_fields@;
            filter_fields.push(self.filter_fields[i].0.duplicate());
            assert forall|k: int| 0 <= k < i implies #[trigger] paths_view(filter_fields@)[k]
                == self.filter_paths()[k] by {
                assert(filter_fields@[k] == before[k]);
                assert(paths_view(before)[k] == self.filter_paths().take(i as int)[k]);
            }
            i = i + 1;
            assert(paths_view(filter_fields@) =~= self.filter_paths().take(i as int));
        }
        assert(self.filter_paths().take(i as int) =~= self.filter_paths());
        SearchIndexConfig { search_field: self.search_field_path.duplicate(), filter_fields }
    }

    /// The terms of a document: the search field's tokens, if the document
    /// holds a string there, then one term per filter field.
    pub open spec fn document_terms_are(&self, doc: &IndexDocument, terms: Seq<DocumentTerm>) -> bool {
        let tokens = match doc.text_at(self.search_path()) {
            Some(t) => analyzed(t),
            None => Seq::empty(),
        };
        &&& terms.len() == tokens.len() + self.filter_fields@.len()
        &&& forall|i: int|
            0 <= i < tokens.len() ==> #[trigger] terms[i].is_search(
                self.search_field,
                tokens[i].0,
                tokens[i].1 as int,
            )
        &&& forall|j: int|
            0 <= j < self.filter_fields@.len() ==> #[trigger] terms[tokens.len() + j].is_filter(
                self.filter_fields@[j].1,
                doc.encoded_at(self.filter_fields@[j].0@),
            )
    }

    /// Whether every token position of the document's search text fits in 32 bits.
    pub open spec fn positions_fit(&self, doc: &IndexDocument) -> bool {
        match doc.text_at(self.search_path()) {
            Some(t) => positions_fit_u32(analyzed(t)),
            None => true,
        }
    }

    pub fn index_into_terms(&self, document: &IndexDocument) -> (r: Result<Vec<DocumentTerm>, SearchError>)
        ensures
            match r {
                Ok(terms) => self.positions_fit(document) && self.document_terms_are(document, terms@),
                Err(e) => !self.positions_fit(document) && e == SearchError::TokenPositionOverflow,
            },
    {
        let mut doc_terms: Vec<DocumentTerm> = Vec::new();
        let ghost tokens = match document.text_at(self.search_path()) {
            Some(t) => analyzed(t),
            None => Seq::empty(),
        };
        match document.get_path(&self.search_field_path) {
            Some(FieldValue { text: Some(s), .. }) => {
                assert(document.text_at(self.search_path()) == Some(s@));
                let tokens_found = analyze(s.as_str());
                let mut i: usize = 0;
                while i < tokens_found.len()
                    invariant
                        0 <= i <= tokens_found@.len(),
                        tokens_found@.len() == tokens.len(),
                        tokens == analyzed(s@),
                        document.text_at(self.search_path()) == Some(s@),
                        forall|k: int|
                            0 <= k < tokens.len() ==> (#[trigger] tokens_found@[k]).text@ == tokens[k].0
                                && tokens_found@[k].position == tokens[k].1,
                        doc_terms@.len() == i,
                        forall|k: int| 0 <= k < i ==> tokens[k].1 <= u32::MAX,
                        forall|k: int| 0 <= k < i ==> #[trigger] doc_terms@[k].is_search(
                            self.search_field,
                            tokens[k].0,
                            tokens[k].1 as int,
                        ),
                    decreases tokens_found@.len() - i,
                {
                    let token = &tokens_found[i];
                    let pos = match FieldPosition::try_from_token_position(token.position) {
                        Some(p) => p,
                        None => {
                            assert(tokens_found@[i as int].position == tokens[i as int].1);
                            assert(tokens[i as int].1 > u32::MAX);
                            assert(!positions_fit_u32(tokens));
                            assert(!self.positions_fit(document));
                            return Err(SearchError::TokenPositionOverflow);
                        },
                    };
                    let term = Term::from_field_text(self.search_field, token.text.as_str());
                    doc_terms.push(DocumentTerm::Search { term, pos });
                    i = i + 1;
                }
            },
            _ => {},
        }
        let ghost n_tokens = doc_terms@.len();
        let mut j: usize = 0;
        while j < self.filter_fields.len()
            invariant
                0 <= j <= self.filter_fields@.len(),
                n_tokens == tokens.len(),
                doc_terms@.len() == n_tokens + j,
                forall|k: int| 0 <= k < tokens.len() ==> #[trigger] doc_terms@[k].is_search(
                    self.search_field,
                    tokens[k].0,
                    tokens[k].1 as int,
                ),
                forall|k: int| 0 <= k < j ==> #[trigger] doc_terms@[n_tokens + k].is_filter(
                    self.filter_fields@[k].1,
                    document.encoded_at(self.filter_fields@[k].0@),
                ),
            decreases self.filter_fields@.len() - j,
        {
            let (path, field) = (&self.filter_fields[j].0, self.filter_fields[j].1);
            let term = match document.get_path(path) {
                Some(v) => Term::from_field_bytes(field, &v.encoded),
                None => Term::from_field_bytes(field, &Vec::new()),
            };
            doc_terms.push(DocumentTerm::Filter { term });
            assert(doc_terms@[n_tokens + j as int].is_filter(field, document.encoded_at(path@)));
            j = j + 1;
        }
        Ok(doc_terms)
    }

    pub fn document_lengths(&self, document: &IndexDocument) -> (r: DocumentLengths)
        ensures
            r.search_field == match document.text_at(self.search_path()) {
                Some(t) => encode_utf8(t).len(),
                None => 0,
            },
            r.filter_fields@.len() == self.filter_fields@.len(),
            forall|j: int|
                0 <= j < r.filter_fields@.len() ==> (#[trigger] r.filter_fields@[j]).0@
                    == self.filter_fields@[j].0@ && r.filter_fields@[j].1
                    == document.encoded_at(self.filter_fields@[j].0@).len(),
    {
        let search_field = match document.get_path(&self.search_field_path) {
            Some(FieldValue { text: Some(s), .. }) => {
                assert(document.text_at(self.search_path()) == Some(s@));
                let st = s.as_str();
                assert(st.spec_bytes() == encode_utf8(s@));
                st.as_bytes().len()
            },
            _ => 0,
        };
        let mut filter_fields: Vec<(FieldPath, usize)> = Vec::new();
        let mut j: usize = 0;
        while j < self.filter_fields.len()
            invariant
                0 <= j <= self.filter_fields@.len(),
                filter_fields@.len() == j,
                forall|k: int|
                    0 <= k < j ==> (#[trigger] filter_fields@[k]).0@ == self.filter_fields@[k].0@
                        && filter_fields@[k].1 == document.encoded_at(self.filter_fields@[k].0@).len(),
            decreases self.filter_fields@.len() - j,
        {
            let path = &self.filter_fields[j].0;
            let len = match document.get_path(path) {
                Some(v) => v.encoded.len(),
                None => 0,
            };
            filter_fields.push((path.duplicate(), len));
            j = j + 1;
        }
        DocumentLengths { search_field, filter_fields }
    }
}

/// Adding filter fields that sort after the existing ones keeps every field
/// ID: the search field keeps ID 3 and each earlier filter field its ID.
pub proof fn lemma_field_ids_stable(
    before: TantivySearchIndexSchema,
    after: TantivySearchIndexSchema,
)
    requires
        before.wf(),
        after.wf(),
        before.search_path() == after.search_path(),
        before.filter_paths().is_prefix_of(after.filter_paths()),
    ensures
        before.search_field == SEARCH_FIELD_ID,
        after.search_field == SEARCH_FIELD_ID,
        forall|i: int|
            0 <= i < before.filter_fields@.len() ==> (#[trigger] after.filter_fields@[i]).0@
                == before.filter_fields@[i].0@ && after.filter_fields@[i].1
                == before.filter_fields@[i].1,
{
    assert forall|i: int| 0 <= i < before.filter_fields@.len() implies (#[trigger] after.filter_fields@[i]).0@
        == before.filter_fields@[i].0@ && after.filter_fields@[i].1 == before.filter_fields@[i].1 by {
        assert(before.filter_paths()[i] == after.filter_paths()[i]);
    }
}

} // verus!
