//! The payloads that tokens seal: each a sequence of length-prefixed fields.
use vstd::prelude::*;
use crate::codec::{
    field_u64,
    fields_fit,
    frame,
    frame_fields,
    lemma_frame_round_trip,
    lemma_u64_round_trip,
    lemma_unframe_frames,
    u64_bytes,
    u64_to_bytes,
    unframe,
    unframe_fields,
};
use crate::terms::copy_bytes;

verus! {

/// An optional byte string as a field: empty when absent, else a 1 and the bytes.
pub open spec fn opt_field(o: Option<Seq<u8>>) -> Seq<u8> {
    match o {
        None => Seq::empty(),
        Some(x) => seq![1u8] + x,
    }
}

/// The view of an optional byte string.
pub open spec fn opt_view(o: Option<Vec<u8>>) -> Option<Seq<u8>> {
    match o {
        None => None,
        Some(x) => Some(x@),
    }
}

pub fn opt_field_bytes(o: &Option<Vec<u8>>) -> (r: Vec<u8>)
    ensures
        r@ == opt_field(opt_view(*o)),
{
    match o {
        None => Vec::new(),
        Some(x) => {
            let mut r: Vec<u8> = vec![1u8];
            let mut i: usize = 0;
            while i < x.len()
                invariant
                    0 <= i <= x@.len(),
                    r@ == seq![1u8] + x@.subrange(0, i as int),
                decreases x@.len() - i,
            {
                r.push(x[i]);
                i = i + 1;
                assert(r@ =~= seq![1u8] + x@.subrange(0, i as int));
            }
            assert(x@.subrange(0, x@.len() as int) =~= x@);
            r
        },
    }
}

/// Reads an optional byte string field; `None` when malformed.
pub fn parse_opt_field(f: &Vec<u8>) -> (r: Option<Option<Vec<u8>>>)
    ensures
        r matches Some(o) ==> opt_field(opt_view(o)) == f@,
        forall|o: Option<Seq<u8>>| f@ == #[trigger] opt_field(o) ==> (r matches Some(x) && opt_view(x) == o),
{
    if f.len() == 0 {
        assert forall|o: Option<Seq<u8>>| f@ == #[trigger] opt_field(o) implies o is None by {
            if o is Some {
                assert(opt_field(o).len() >= 1);
            }
        }
        return Some(None);
    }
    if f[0] != 1 {
        assert forall|o: Option<Seq<u8>>| f@ == #[trigger] opt_field(o) implies false by {
            if o is Some {
                assert(opt_field(o)[0] == 1);
            }
        }
        return None;
    }
    let mut x: Vec<u8> = Vec::new();
    let mut i: usize = 1;
    while i < f.len()
        invariant
            1 <= i <= f@.len(),
            x@ == f@.subrange(1, i as int),
        decreases f@.len() - i,
    {
        x.push(f[i]);
        i = i + 1;
        assert(x@ =~= f@.subrange(1, i as int));
    }
    assert(seq![1u8] + x@ =~= f@);
    assert forall|o: Option<Seq<u8>>| f@ == #[trigger] opt_field(o) implies o == Some(x@) by {
        if o is Some {
            assert(o->0 =~= opt_field(o).subrange(1, opt_field(o).len() as int));
        }
    }
    Some(Some(x))
}

proof fn lemma_u64_field_unique(v: u64, w: u64)
    requires
        u64_bytes(v) == u64_bytes(w),
    ensures
        v == w,
{
    lemma_u64_round_trip(v);
    lemma_u64_round_trip(w);
}

/// Reads a field of eight bytes; exactly the encodings of integers are read.
pub fn parse_u64_field(f: &Vec<u8>) -> (r: Option<u64>)
    ensures
        r is Some <==> f@.len() == 8,
        r matches Some(v) ==> u64_bytes(v) == f@,
        forall|v: u64| f@ == #[trigger] u64_bytes(v) ==> r == Some(v),
{
    let r = field_u64(f);
    assert forall|v: u64| f@ == #[trigger] u64_bytes(v) implies r == Some(v) by {
        lemma_u64_round_trip(v);
        lemma_u64_field_unique(r->0, v);
    }
    r
}

/// The identity that an admin key carries.
#[derive(Debug, Clone, Copy, PartialEq, Eq, Structural)]
pub enum AdminKeyIdentity {
    MemberId(u64),
    System,
}

/// The payload of an admin key.
pub struct AdminKeyProto {
    pub instance_name: Option<Vec<u8>>,
    pub issued_s: u64,
    pub identity: Option<AdminKeyIdentity>,
}

/// The content of an admin key payload.
pub struct AdminKeyView {
    pub instance_name: Option<Seq<u8>>,
    pub issued_s: u64,
    pub identity: Option<AdminKeyIdentity>,
}

impl View for AdminKeyProto {
    type V = AdminKeyView;

    open spec fn view(&self) -> AdminKeyView {
        AdminKeyView {
            instance_name: opt_view(self.instance_name),
            issued_s: self.issued_s,
            identity: self.identity,
        }
    }
}

pub open spec fn identity_field(i: Option<AdminKeyIdentity>) -> Seq<u8> {
    match i {
        None => Seq::empty(),
        Some(AdminKeyIdentity::MemberId(m)) => seq![1u8] + u64_bytes(m),
        Some(AdminKeyIdentity::System) => seq![2u8],
    }
}

/// The fields of an admin key payload.
pub open spec fn admin_key_fields(v: AdminKeyView) -> Seq<Seq<u8>> {
    seq![identity_field(v.identity), u64_bytes(v.issued_s), opt_field(v.instance_name)]
}

/// The bytes of an admin key payload.
pub open spec fn admin_key_payload(v: AdminKeyView) -> Seq<u8> {
    frame(admin_key_fields(v))
}

/// Whether each field of the payload fits its length prefix.
pub open spec fn admin_key_fits(v: AdminKeyView) -> bool {
    v.instance_name matches Some(n) ==> n.len() < u32::MAX
}

fn identity_field_bytes(i: Option<AdminKeyIdentity>) -> (r: Vec<u8>)
    ensures
        r@ == identity_field(i),
{
    match i {
        None => Vec::new(),
        Some(AdminKeyIdentity::MemberId(m)) => {
            let mut r = vec![1u8];
            let b = u64_to_bytes(m);
            let mut k: usize = 0;
            while k < 8
                invariant
                    0 <= k <= 8,
                    b@ == u64_bytes(m),
                    r@ == seq![1u8] + b@.subrange(0, k as int),
                decreases 8 - k,
            {
                r.push(b[k]);
                k = k + 1;
                assert(r@ =~= seq![1u8] + b@.subrange(0, k as int));
            }
            assert(b@.subrange(0, 8) =~= b@);
            r
        },
        Some(AdminKeyIdentity::System) => {
            let r = vec![2u8];
            assert(r@ =~= seq![2u8]);
            r
        },
    }
}

fn parse_identity_field(f: &Vec<u8>) -> (r: Option<Option<AdminKeyIdentity>>)
    ensures
        r matches Some(i) ==> identity_field(i) == f@,
        forall|i: Option<AdminKeyIdentity>| f@ == #[trigger] identity_field(i) ==> r == Some(i),
{
    if f.len() == 0 {
        assert forall|i: Option<AdminKeyIdentity>| f@ == #[trigger] identity_field(i) implies i is None
            by {
            if i is Some {
                assert(identity_field(i).len() >= 1);
            }
        }
        return Some(None);
    }
    if f.len() == 1 && f[0] == 2 {
        assert(f@ =~= seq![2u8]);
        assert forall|i: Option<AdminKeyIdentity>| f@ == #[trigger] identity_field(i) implies i == Some(
            AdminKeyIdentity::System,
        ) by {
            if i matches Some(AdminKeyIdentity::MemberId(m)) {
                assert(identity_field(i).len() == 9);
            }
        }
        return Some(Some(AdminKeyIdentity::System));
    }
    if f.len() == 9 && f[0] == 1 {
        let mut b: Vec<u8> = Vec::new();
        let mut k: usize = 1;
        while k < 9
            invariant
                1 <= k <= 9,
                f@.len() == 9,
                b@ == f@.subrange(1, k as int),
            decreases 9 - k,
        {
            b.push(f[k]);
            k = k + 1;
            assert(b@ =~= f@.subrange(1, k as int));
        }
        let m = match parse_u64_field(&b) {
            Some(m) => m,
            None => {
                return None;
            },
        };
        assert(seq![1u8] + u64_bytes(m) =~= f@);
        assert forall|i: Option<AdminKeyIdentity>| f@ == #[trigger] identity_field(i) implies i == Some(
            AdminKeyIdentity::MemberId(m),
        ) by {
            if i is Some && i->0 is MemberId {
                let m2 = i->0->MemberId_0;
                assert(u64_bytes(m2) =~= f@.subrange(1, 9));
                assert(u64_bytes(m) =~= f@.subrange(1, 9));
                lemma_u64_field_unique(m, m2);
            }
        }
        return Some(Some(AdminKeyIdentity::MemberId(m)));
    }
    assert forall|i: Option<AdminKeyIdentity>| f@ == #[trigger] identity_field(i) implies false by {
        if i matches Some(AdminKeyIdentity::MemberId(m)) {
            assert(identity_field(i)[0] == 1);
        }
        if i matches Some(AdminKeyIdentity::System) {
            assert(identity_field(i)[0] == 2);
        }
    }
    None
}

impl AdminKeyProto {
    pub fn encode(&self) -> (r: Vec<u8>)
        requires
            admin_key_fits(self@),
        ensures
            r@ == admin_key_payload(self@),
    {
        let mut fields: Vec<Vec<u8>> = Vec::new();
        fields.push(identity_field_bytes(self.identity));
        fields.push(u64_to_bytes(self.issued_s));
        fields.push(opt_field_bytes(&self.instance_name));
        let ghost fs = fields@.map_values(|f: Vec<u8>| f@);
        assert(fs =~= admin_key_fields(self@));
        assert(fields_fit(fs));
        frame_fields(&fields)
    }

    /// Reads an admin key payload: exactly the encodings of payloads are read.
    pub fn decode(b: &[u8]) -> (r: Option<AdminKeyProto>)
        ensures
            r matches Some(p) ==> admin_key_payload(p@) == b@ && admin_key_fits(p@),
            forall|v: AdminKeyView|
                admin_key_fits(v) && b@ == #[trigger] admin_key_payload(v) ==> (r matches Some(p) && p@ == v),
    {
        proof {
            assert forall|v: AdminKeyView|
                admin_key_fits(v) && b@ == #[trigger] admin_key_payload(v) implies unframe(b@) == Some(
                admin_key_fields(v)) by {
                lemma_frame_round_trip(admin_key_fields(v));
            }
        }
        let fields = match unframe_fields(b) {
            Some(f) => f,
            None => {
                return None;
            },
        };
        if fields.len() != 3 {
            return None;
        }
        let identity = match parse_identity_field(&fields[0]) {
            Some(i) => i,
            None => {
                return None;
            },
        };
        let issued_s = match parse_u64_field(&fields[1]) {
            Some(v) => v,
            None => {
                return None;
            },
        };
        let instance_name = match parse_opt_field(&fields[2]) {
            Some(o) => o,
            None => {
                return None;
            },
        };
        let r = AdminKeyProto { instance_name, issued_s, identity };
        proof {
            let fs = unframe(b@)->0;
            assert(fs =~= admin_key_fields(r@));
            lemma_unframe_frames(b@);
            assert(fs[2].len() <= u32::MAX);
        }
        Some(r)
    }
}

/// The payload of a storage token.
pub struct StorageTokenProto {
    pub instance_name: Vec<u8>,
    pub issued_s: u64,
    /// Whether the token authorizes storing a file; absent when malformed.
    pub store_file: Option<bool>,
}

pub struct StorageTokenView {
    pub instance_name: Seq<u8>,
    pub issued_s: u64,
    pub store_file: Option<bool>,
}

impl View for StorageTokenProto {
    type V = StorageTokenView;

    open spec fn view(&self) -> StorageTokenView {
        StorageTokenView {
            instance_name: self.instance_name@,
            issued_s: self.issued_s,
            store_file: self.store_file,
        }
    }
}

pub open spec fn flag_field(f: Option<bool>) -> Seq<u8> {
    match f {
        None => Seq::empty(),
        Some(true) => seq![1u8],
        Some(false) => seq![0u8],
    }
}

pub open spec fn storage_token_fields(v: StorageTokenView) -> Seq<Seq<u8>> {
    seq![v.instance_name, u64_bytes(v.issued_s), flag_field(v.store_file)]
}

pub open spec fn storage_token_payload(v: StorageTokenView) -> Seq<u8> {
    frame(storage_token_fields(v))
}

fn flag_field_bytes(f: Option<bool>) -> (r: Vec<u8>)
    ensures
        r@ == flag_field(f),
{
    let r = match f {
        None => Vec::new(),
        Some(true) => vec![1u8],
        Some(false) => vec![0u8],
    };
    assert(r@ =~= flag_field(f));
    r
}

fn parse_flag_field(f: &Vec<u8>) -> (r: Option<Option<bool>>)
    ensures
        r matches Some(x) ==> flag_field(x) == f@,
        forall|x: Option<bool>| f@ == #[trigger] flag_field(x) ==> r == Some(x),
{
    if f.len() == 0 {
        assert forall|x: Option<bool>| f@ == #[trigger] flag_field(x) implies x is None by {
            if x is Some {
                assert(flag_field(x).len() == 1);
            }
        }
        Some(None)
    } else if f.len() == 1 && f[0] <= 1 {
        let b = f[0] == 1;
        assert(f@ =~= flag_field(Some(b)));
        assert forall|x: Option<bool>| f@ == #[trigger] flag_field(x) implies x == Some(b) by {
            if x is Some {
                assert(flag_field(x)[0] == f@[0]);
            }
        }
        Some(Some(b))
    } else {
        assert forall|x: Option<bool>| f@ == #[trigger] flag_field(x) implies false by {
            if x is Some {
                assert(flag_field(x)[0] <= 1);
            }
        }
        None
    }
}

impl StorageTokenProto {
    pub fn encode(&self) -> (r: Vec<u8>)
        requires
            self.instance_name@.len() <= u32::MAX,
        ensures
            r@ == storage_token_payload(self@),
    {
        let mut fields: Vec<Vec<u8>> = Vec::new();
        fields.push(copy_bytes(&self.instance_name));
        fields.push(u64_to_bytes(self.issued_s));
        fields.push(flag_field_bytes(self.store_file));
        let ghost fs = fields@.map_values(|f: Vec<u8>| f@);
        assert(fs =~= storage_token_fields(self@));
        assert(fields_fit(fs));
        frame_fields(&fields)
    }

    /// Reads a storage token payload: exactly the encodings of payloads are read.
    pub fn decode(b: &[u8]) -> (r: Option<StorageTokenProto>)
        ensures
            r matches Some(p) ==> storage_token_payload(p@) == b@ && p@.instance_name.len() <= u32::MAX,
            forall|v: StorageTokenView|
                v.instance_name.len() <= u32::MAX && b@ == #[trigger] storage_token_payload(v) ==> (r matches Some(
                    p,
                ) && p@ == v),
    {
        proof {
            assert forall|v: StorageTokenView|
                v.instance_name.len() <= u32::MAX && b@ == #[trigger] storage_token_payload(v) implies unframe(b@)
                == Some(storage_token_fields(v)) by {
                lemma_frame_round_trip(storage_token_fields(v));
            }
        }
        let fields = match unframe_fields(b) {
            Some(f) => f,
            None => {
                return None;
            },
        };
        if fields.len() != 3 {
            return None;
        }
        let instance_name = copy_bytes(&fields[0]);
        let issued_s = match parse_u64_field(&fields[1]) {
            Some(v) => v,
            None => {
                return None;
            },
        };
        let store_file = match parse_flag_field(&fields[2]) {
            Some(x) => x,
            None => {
                return None;
            },
        };
        let r = StorageTokenProto { instance_name, issued_s, store_file };
        proof {
            let fs = unframe(b@)->0;
            assert(fs =~= storage_token_fields(r@));
            lemma_unframe_frames(b@);
            assert(fs[0].len() <= u32::MAX);
        }
        Some(r)
    }
}

/// The payload of an action callback token.
pub struct ActionCallbackTokenProto {
    pub issued_s: u64,
}

pub open spec fn action_token_payload(issued_s: u64) -> Seq<u8> {
    frame(seq![u64_bytes(issued_s)])
}

impl ActionCallbackTokenProto {
    pub fn encode(&self) -> (r: Vec<u8>)
        ensures
            r@ == action_token_payload(self.issued_s),
    {
        let mut fields: Vec<Vec<u8>> = Vec::new();
        fields.push(u64_to_bytes(self.issued_s));
        let ghost fs = fields@.map_values(|f: Vec<u8>| f@);
        assert(fs =~= seq![u64_bytes(self.issued_s)]);
        assert(fields_fit(fs));
        frame_fields(&fields)
    }

    /// Reads an action token payload: exactly the encodings of payloads are read.
    pub fn decode(b: &[u8]) -> (r: Option<ActionCallbackTokenProto>)
        ensures
            r matches Some(p) ==> action_token_payload(p.issued_s) == b@,
            forall|v: u64| b@ == #[trigger] action_token_payload(v) ==> (r matches Some(p) && p.issued_s == v),
    {
        proof {
            assert forall|v: u64| b@ == #[trigger] action_token_payload(v) implies unframe(b@) == Some(
                seq![u64_bytes(v)],
            ) by {
                lemma_u64_round_trip(v);
                assert(fields_fit(seq![u64_bytes(v)]));
                lemma_frame_round_trip(seq![u64_bytes(v)]);
            }
        }
        let fields = match unframe_fields(b) {
            Some(f) => f,
            None => {
                return None;
            },
        };
        if fields.len() != 1 {
            return None;
        }
        let issued_s = match parse_u64_field(&fields[0]) {
            Some(v) => v,
            None => {
                return None;
            },
        };
        proof {
            let fs = unframe(b@)->0;
            assert(fs =~= seq![u64_bytes(issued_s)]);
            lemma_unframe_frames(b@);
        }
        Some(ActionCallbackTokenProto { issued_s })
    }
}

/// Where a cursor stands: at the end, or after an index key.
#[derive(Debug)]
pub enum CursorPosition {
    End,
    After(Vec<u8>),
}

/// The content of a cursor position: `None` for the end, else the index key.
pub open spec fn position_view(p: CursorPosition) -> Option<Seq<u8>> {
    match p {
        CursorPosition::End => None,
        CursorPosition::After(k) => Some(k@),
    }
}

/// The payload of a cursor.
pub struct CursorProto {
    pub instance_name: Vec<u8>,
    pub position: Option<CursorPosition>,
    pub query_fingerprint: Vec<u8>,
}

pub struct CursorView {
    pub instance_name: Seq<u8>,
    pub position: Option<Option<Seq<u8>>>,
    pub query_fingerprint: Seq<u8>,
}

impl View for CursorProto {
    type V = CursorView;

    open spec fn view(&self) -> CursorView {
        CursorView {
            instance_name: self.instance_name@,
            position: match self.position {
                None => None,
                Some(p) => Some(position_view(p)),
            },
            query_fingerprint: self.query_fingerprint@,
        }
    }
}

pub open spec fn position_field(p: Option<Option<Seq<u8>>>) -> Seq<u8> {
    match p {
        None => Seq::empty(),
        Some(None) => seq![1u8],
        Some(Some(k)) => seq![2u8] + k,
    }
}

pub open spec fn cursor_fields(v: CursorView) -> Seq<Seq<u8>> {
    seq![v.instance_name, position_field(v.position), v.query_fingerprint]
}

pub open spec fn cursor_payload(v: CursorView) -> Seq<u8> {
    frame(cursor_fields(v))
}

pub open spec fn cursor_fits(v: CursorView) -> bool {
    &&& v.instance_name.len() <= u32::MAX
    &&& v.query_fingerprint.len() <= u32::MAX
    &&& (v.position matches Some(Some(k)) ==> k.len() < u32::MAX)
}

fn position_field_bytes(p: &Option<CursorPosition>) -> (r: Vec<u8>)
    ensures
        r@ == position_field(
            match *p {
                None => None,
                Some(q) => Some(position_view(q)),
            },
        ),
{
    match p {
        None => Vec::new(),
        Some(CursorPosition::End) => {
            let r = vec![1u8];
            assert(r@ =~= seq![1u8]);
            r
        },
        Some(CursorPosition::After(k)) => {
            let mut r = vec![2u8];
            let mut i: usize = 0;
            while i < k.len()
                invariant
                    0 <= i <= k@.len(),
                    r@ == seq![2u8] + k@.subrange(0, i as int),
                decreases k@.len() - i,
            {
                r.push(k[i]);
                i = i + 1;
                assert(r@ =~= seq![2u8] + k@.subrange(0, i as int));
            }
            assert(k@.subrange(0, k@.len() as int) =~= k@);
            r
        },
    }
}

fn parse_position_field(f: &Vec<u8>) -> (r: Option<Option<CursorPosition>>)
    ensures
        r matches Some(x) ==> position_field(
            match x {
                None => None,
                Some(q) => Some(position_view(q)),
            },
        ) == f@,
        forall|x: Option<Option<Seq<u8>>>|
            f@ == #[trigger] position_field(x) ==> (r matches Some(y) && match y {
                None => None,
                Some(q) => Some(position_view(q)),
            } == x),
{
    if f.len() == 0 {
        assert forall|x: Option<Option<Seq<u8>>>| f@ == #[trigger] position_field(x) implies x is None by {
            if x is Some {
                assert(position_field(x).len() >= 1);
            }
        }
        return Some(None);
    }
    if f.len() == 1 && f[0] == 1 {
        assert(f@ =~= seq![1u8]);
        assert forall|x: Option<Option<Seq<u8>>>| f@ == #[trigger] position_field(x) implies x == Some(
            None::<Seq<u8>>,
        ) by {
            if x is Some && x->0 is Some {
                assert(position_field(x)[0] == 2);
            }
        }
        return Some(Some(CursorPosition::End));
    }
    if f[0] == 2 {
        let mut k: Vec<u8> = Vec::new();
        let mut i: usize = 1;
        while i < f.len()
            invariant
                1 <= i <= f@.len(),
                k@ == f@.subrange(1, i as int),
            decreases f@.len() - i,
        {
            k.push(f[i]);
            i = i + 1;
            assert(k@ =~= f@.subrange(1, i as int));
        }
        assert(seq![2u8] + k@ =~= f@);
        assert forall|x: Option<Option<Seq<u8>>>| f@ == #[trigger] position_field(x) implies x == Some(
            Some(k@),
        ) by {
            if x is Some && x->0 is Some {
                assert(x->0->0 =~= position_field(x).subrange(1, position_field(x).len() as int));
            } else if x is Some {
                assert(position_field(x)[0] == 1);
            }
        }
        return Some(Some(CursorPosition::After(k)));
    }
    assert forall|x: Option<Option<Seq<u8>>>| f@ == #[trigger] position_field(x) implies false by {
        if x is Some && x->0 is Some {
            assert(position_field(x)[0] == 2);
        } else if x is Some {
            assert(position_field(x) =~= seq![1u8]);
        }
    }
    None
}

impl CursorProto {
    pub fn encode(&self) -> (r: Vec<u8>)
        requires
            cursor_fits(self@),
        ensures
            r@ == cursor_payload(self@),
    {
        let mut fields: Vec<Vec<u8>> = Vec::new();
        fields.push(copy_bytes(&self.instance_name));
        fields.push(position_field_bytes(&self.position));
        fields.push(copy_bytes(&self.query_fingerprint));
        let ghost fs = fields@.map_values(|f: Vec<u8>| f@);
        assert(fs =~= cursor_fields(self@));
        assert(fields_fit(fs));
        frame_fields(&fields)
    }

    /// Reads a cursor payload: exactly the encodings of payloads are read.
    pub fn decode(b: &[u8]) -> (r: Option<CursorProto>)
        ensures
            r matches Some(p) ==> cursor_payload(p@) == b@ && cursor_fits(p@),
            forall|v: CursorView|
                cursor_fits(v) && b@ == #[trigger] cursor_payload(v) ==> (r matches Some(p) && p@ == v),
    {
        proof {
            assert forall|v: CursorView|
                cursor_fits(v) && b@ == #[trigger] cursor_payload(v) implies unframe(b@) == Some(
                cursor_fields(v)) by {
                lemma_frame_round_trip(cursor_fields(v));
            }
        }
        let fields = match unframe_fields(b) {
            Some(f) => f,
            None => {
                return None;
            },
        };
        if fields.len() != 3 {
            return None;
        }
        let instance_name = copy_bytes(&fields[0]);
        let position = match parse_position_field(&fields[1]) {
            Some(x) => x,
            None => {
                return None;
            },
        };
        let query_fingerprint = copy_bytes(&fields[2]);
        let r = CursorProto { instance_name, position, query_fingerprint };
        proof {
            let fs = unframe(b@)->0;
            assert(fs =~= cursor_fields(r@));
            lemma_unframe_frames(b@);
            assert(fs[1].len() <= u32::MAX);
        }
        Some(r)
    }
}

/// The payload of a query journal: its end cursor, if any.
pub struct QueryJournalProto {
    pub end_cursor: Option<CursorProto>,
}

pub open spec fn journal_payload(c: Option<CursorView>) -> Seq<u8> {
    frame(
        seq![
            match c {
                None => Seq::empty(),
                Some(v) => seq![1u8] + cursor_payload(v),
            },
        ],
    )
}

pub open spec fn journal_fits(c: Option<CursorView>) -> bool {
    c matches Some(v) ==> cursor_fits(v) && cursor_payload(v).len() < u32::MAX
}

impl QueryJournalProto {
    pub open spec fn cursor_view(&self) -> Option<CursorView> {
        match self.end_cursor {
            None => None,
            Some(c) => Some(c@),
        }
    }

    pub fn encode(&self) -> (r: Vec<u8>)
        requires
            journal_fits(self.cursor_view()),
        ensures
            r@ == journal_payload(self.cursor_view()),
    {
        let inner = match &self.end_cursor {
            None => None,
            Some(c) => Some(c.encode()),
        };
        let mut fields: Vec<Vec<u8>> = Vec::new();
        fields.push(opt_field_bytes(&inner));
        let ghost fs = fields@.map_values(|f: Vec<u8>| f@);
        assert(fs =~= seq![
            match self.cursor_view() {
                None => Seq::empty(),
                Some(v) => seq![1u8] + cursor_payload(v),
            },
        ]);
        assert(fields_fit(fs));
        frame_fields(&fields)
    }

    /// Reads a query journal payload: exactly the encodings of payloads are read.
    pub fn decode(b: &[u8]) -> (r: Option<QueryJournalProto>)
        ensures
            r matches Some(p) ==> journal_payload(p.cursor_view()) == b@,
            forall|c: Option<CursorView>|
                journal_fits(c) && b@ == #[trigger] journal_payload(c) ==> (r matches Some(p) && p.cursor_view()
                    == c),
    {
        proof {
            assert forall|c: Option<CursorView>|
                journal_fits(c) && b@ == #[trigger] journal_payload(c) implies unframe(b@) == Some(
                seq![opt_field(match c { None => None, Some(v) => Some(cursor_payload(v)) })],
            ) by {
                let f = opt_field(
                    match c {
                        None => None,
                        Some(v) => Some(cursor_payload(v)),
                    },
                );
                assert(fields_fit(seq![f]));
                assert(seq![f] =~= seq![
                    match c {
                        None => Seq::empty(),
                        Some(v) => seq![1u8] + cursor_payload(v),
                    },
                ]);
                lemma_frame_round_trip(seq![f]);
            }
        }
        let fields = match unframe_fields(b) {
            Some(f) => f,
            None => {
                return None;
            },
        };
        if fields.len() != 1 {
            return None;
        }
        let inner = match parse_opt_field(&fields[0]) {
            Some(o) => o,
            None => {
                return None;
            },
        };
        let end_cursor = match inner {
            None => None,
            Some(bytes) => match CursorProto::decode(bytes.as_slice()) {
                Some(c) => Some(c),
                None => {
                    return None;
                },
            },
        };
        let r = QueryJournalProto { end_cursor };
        proof {
            let fs = unframe(b@)->0;
            assert(fs =~= seq![
                match r.cursor_view() {
                    None => Seq::empty(),
                    Some(v) => seq![1u8] + cursor_payload(v),
                },
            ]);
            lemma_unframe_frames(b@);
        }
        Some(r)
    }
}

/// Distinct admin key payloads have distinct encodings.
pub proof fn lemma_admin_payload_injective(v: AdminKeyView, w: AdminKeyView)
    requires
        admin_key_fits(v),
        admin_key_fits(w),
        admin_key_payload(v) == admin_key_payload(w),
    ensures
        v == w,
{
    let fv = admin_key_fields(v);
    let fw = admin_key_fields(w);
    assert(fields_fit(fv)) by {
        assert forall|i: int| 0 <= i < fv.len() implies (#[trigger] fv[i]).len() <= u32::MAX by {
            if i == 0 {
                assert(identity_field(v.identity).len() <= 9);
            }
        }
    }
    assert(fields_fit(fw)) by {
        assert forall|i: int| 0 <= i < fw.len() implies (#[trigger] fw[i]).len() <= u32::MAX by {
            if i == 0 {
                assert(identity_field(w.identity).len() <= 9);
            }
        }
    }
    lemma_frame_round_trip(fv);
    lemma_frame_round_trip(fw);
    assert(fv == fw);
    assert(fv[0] == fw[0] && fv[1] == fw[1] && fv[2] == fw[2]);
    lemma_u64_round_trip(v.issued_s);
    lemma_u64_round_trip(w.issued_s);
    match (v.identity, w.identity) {
        (Some(AdminKeyIdentity::MemberId(a)), Some(AdminKeyIdentity::MemberId(b))) => {
            assert(u64_bytes(a) =~= fv[0].subrange(1, 9));
            assert(u64_bytes(b) =~= fw[0].subrange(1, 9));
            lemma_u64_field_unique(a, b);
        },
        (Some(AdminKeyIdentity::MemberId(a)), Some(AdminKeyIdentity::System)) => {
            assert(fv[0].len() == 9);
        },
        (Some(AdminKeyIdentity::System), Some(AdminKeyIdentity::MemberId(b))) => {
            assert(fw[0].len() == 9);
        },
        (Some(_), None) => {
            assert(fv[0].len() > 0);
        },
        (None, Some(_)) => {
            assert(fw[0].len() > 0);
        },
        _ => {},
    }
    match (v.instance_name, w.instance_name) {
        (Some(a), Some(b)) => {
            assert(a =~= fv[2].subrange(1, fv[2].len() as int));
            assert(b =~= fw[2].subrange(1, fw[2].len() as int));
        },
        (Some(a), None) => {
            assert(fv[2].len() > 0);
        },
        (None, Some(b)) => {
            assert(fw[2].len() > 0);
        },
        _ => {},
    }
}

} // verus!
