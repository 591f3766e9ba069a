//! Terms: the (field, value) pairs that the inverted indexes are keyed by.
use vstd::prelude::*;

verus! {

/// The value of a term: analyzed text for the search field, the database's
/// canonical encoding of a value for a filter field.
pub enum TermValue {
    Text(String),
    Bytes(Vec<u8>),
}

/// A term of one field.
pub struct Term {
    pub field: u32,
    pub value: TermValue,
}

impl Term {
    /// Whether this is the text term `text` of field `field`.
    pub open spec fn is_text(&self, field: u32, text: Seq<char>) -> bool {
        &&& self.field == field
        &&& self.value matches TermValue::Text(t) && t@ == text
    }

    /// Whether this is the byte term `bytes` of field `field`.
    pub open spec fn is_bytes(&self, field: u32, bytes: Seq<u8>) -> bool {
        &&& self.field == field
        &&& self.value matches TermValue::Bytes(b) && b@ == bytes
    }

    pub fn from_field_text(field: u32, text: &str) -> (r: Term)
        ensures
            r.is_text(field, text@),
    {
        Term { field, value: TermValue::Text(text.to_owned()) }
    }

    pub fn from_field_bytes(field: u32, bytes: &Vec<u8>) -> (r: Term)
        ensures
            r.is_bytes(field, bytes@),
    {
        Term { field, value: TermValue::Bytes(copy_bytes(bytes)) }
    }

    /// The term's text, if it is a text term.
    pub fn as_str(&self) -> (r: Option<&str>)
        ensures
            match self.value {
                TermValue::Text(t) => r matches Some(s) && s@ == t@,
                TermValue::Bytes(_) => r is None,
            },
    {
        match &self.value {
            TermValue::Text(t) => Some(t.as_str()),
            TermValue::Bytes(_) => None,
        }
    }
}

/// A copy of a byte string.
pub fn copy_bytes(bytes: &Vec<u8>) -> (r: Vec<u8>)
    ensures
        r@ == bytes@,
{
    let mut r: Vec<u8> = Vec::with_capacity(bytes.len());
    let mut i: usize = 0;
    while i < bytes.len()
        invariant
            0 <= i <= bytes@.len(),
            r@ == bytes@.subrange(0, i as int),
        decreases bytes@.len() - i,
    {
        r.push(bytes[i]);
        i = i + 1;
    }
    assert(r@ =~= bytes@);
    r
}

/// The position of a term within a document's token stream.
#[derive(Debug, Clone, Copy, Default, PartialOrd, Ord, PartialEq, Eq, Structural)]
pub struct FieldPosition(u32);

impl View for FieldPosition {
    type V = u32;

    closed spec fn view(&self) -> u32 {
        self.0
    }
}

impl FieldPosition {
    pub fn new_for_test(pos: u32) -> (r: FieldPosition)
        ensures
            r@ == pos,
    {
        FieldPosition(pos)
    }

    /// The position of a token, if it fits in 32 bits.
    pub fn try_from_token_position(pos: usize) -> (r: Option<FieldPosition>)
        ensures
            r matches Some(p) ==> p@ == pos,
            r is Some <==> pos <= u32::MAX,
    {
        if pos <= u32::MAX as usize {
            Some(FieldPosition(pos as u32))
        } else {
            None
        }
    }

    pub fn value(&self) -> (r: u32)
        ensures
            r == self@,
    {
        self.0
    }
}

impl From<FieldPosition> for u32 {
    fn from(value: FieldPosition) -> u32 {
        value.0
    }
}

impl vstd::std_specs::convert::FromSpecImpl<FieldPosition> for u32 {
    open spec fn obeys_from_spec() -> bool {
        true
    }

    open spec fn from_spec(v: FieldPosition) -> u32 {
        v@
    }
}

/// A term of a document: a search term at a position, or a filter term.
pub enum DocumentTerm {
    Search { term: Term, pos: FieldPosition },
    Filter { term: Term },
}

impl DocumentTerm {
    pub open spec fn spec_term(&self) -> Term {
        match self {
            DocumentTerm::Search { term, .. } => *term,
            DocumentTerm::Filter { term } => *term,
        }
    }

    /// Whether this is the search term `text` of field `field` at `pos`.
    pub open spec fn is_search(&self, field: u32, text: Seq<char>, pos: int) -> bool {
        &&& self matches DocumentTerm::Search { term, pos: p }
        &&& self.spec_term().is_text(field, text)
        &&& p@ == pos
    }

    /// Whether this is the filter term `bytes` of field `field`.
    pub open spec fn is_filter(&self, field: u32, bytes: Seq<u8>) -> bool {
        &&& self is Filter
        &&& self.spec_term().is_bytes(field, bytes)
    }

    pub fn term(&self) -> (r: &Term)
        ensures
            *r == self.spec_term(),
    {
        match self {
            DocumentTerm::Search { term, .. } => term,
            DocumentTerm::Filter { term } => term,
        }
    }

    /// The term's position; filter terms have position 0.
    pub fn position(&self) -> (r: FieldPosition)
        ensures
            match self {
                DocumentTerm::Search { pos, .. } => r@ == pos@,
                DocumentTerm::Filter { .. } => r@ == 0,
            },
    {
        match self {
            DocumentTerm::Search { pos, .. } => *pos,
            DocumentTerm::Filter { .. } => FieldPosition(0),
        }
    }

    pub fn field_id(&self) -> (r: u32)
        ensures
            r == self.spec_term().field,
    {
        self.term().field
    }
}

} // verus!
