//! The key broker: issues and checks the authenticated tokens of one
//! instance (admin and system keys, storage authorizations, action callback
//! tokens) and seals cursors and query journals.
use vstd::prelude::*;
use vstd::utf8::{encode_utf8, encode_utf8_valid_utf8, valid_utf8};
use crate::codec::{ascii_chars, fields_fit, frame, lemma_ascii_bytes_utf8, lemma_frame_len_bound, lemma_utf8_concat, u64_bytes};
use crate::encryptor::{
    fresh_nonce,
    string_from_utf8,
    malformed_token,
    sealed,
    token_text,
    unix_seconds_now,
    Encryptor,
    MAX_PLAINTEXT_LEN,
    NONCE_LEN,
    SECRET_LEN,
};
use crate::payload::{
    admin_key_fields,
    admin_key_fits,
    admin_key_payload,
    identity_field,
    opt_field,
    AdminKeyIdentity,
    AdminKeyProto,
    AdminKeyView,
    lemma_admin_payload_injective,
    opt_view,
    action_token_payload,
    storage_token_fields,
    storage_token_payload,
    ActionCallbackTokenProto,
    StorageTokenProto,
    StorageTokenView,
    cursor_fields,
    cursor_fits,
    cursor_payload,
    journal_fits,
    journal_payload,
    position_field,
    position_view,
    CursorPosition,
    CursorProto,
    CursorView,
    QueryJournalProto,
};
use crate::terms::copy_bytes;

verus! {

/// Version byte of action callback tokens.
pub const ACTION_KEY_VERSION: u8 = 1;

/// Version byte of admin and system keys.
pub const ADMIN_KEY_VERSION: u8 = 1;

/// Version byte of cursors.
pub const CURSOR_VERSION: u8 = 7;

/// Version byte of query journals.
pub const QUERY_JOURNAL_VERSION: u8 = 7;

/// Version byte of storage authorizations.
pub const STORE_FILE_AUTHZ_VERSION: u8 = 1;

/// Longest tolerated delay, in seconds, between a transaction's start and the
/// issue of a storage authorization for it.
pub const MAX_TS_DELAY_S: u64 = 15;

/// Name of the development instance.
pub const DEV_INSTANCE_NAME: &'static str = "carnitas";

/// Errors of the key broker.
#[derive(Debug, Clone, Copy, PartialEq, Eq, Structural)]
pub enum KeyBrokerError {
    /// The instance secret is not `SECRET_LEN` bytes.
    InvalidInstanceSecret,
    /// The instance name does not fit a token field.
    InstanceNameTooLong,
    /// A storage authorization was asked for a timestamp too far in the past.
    IssuedTooFarInPast,
    /// An admin key does not open, or its payload is malformed.
    UndecodableAdminKey,
    /// An admin key names no instance.
    InvalidAdminKeyFormat,
    /// A key is for another instance.
    KeyForOtherInstance,
    /// A token's issue time is missing.
    MissingIssuedTime,
    /// An admin key carries no identity.
    MissingIdentity,
    /// A storage token does not open, or its payload is malformed.
    StorageTokenInvalid,
    /// A storage token is for another instance or does not authorize storing.
    InvalidStorageToken,
    /// A storage token has expired.
    StorageTokenExpired,
    /// A cursor or journal does not open, is malformed, or is for another instance.
    InvalidCursor,
    /// An action callback token does not open, or its payload is malformed.
    UndecodableActionToken,
    /// An action callback token has expired.
    ActionTokenExpired,
    /// The request carries no credentials.
    AuthorizationMissing,
    /// A serialized identity lacks a field.
    MissingIdentityField,
    /// A serialized identity lacks its variant.
    MissingNestedIdentity,
}

/// The stable short code of a key broker error that reaches users.
pub open spec fn key_broker_code(e: KeyBrokerError) -> Option<Seq<char>> {
    match e {
        KeyBrokerError::StorageTokenInvalid => Some("StorageTokenInvalid"@),
        KeyBrokerError::InvalidStorageToken => Some("InvalidStorageToken"@),
        KeyBrokerError::StorageTokenExpired => Some("StorageTokenExpired"@),
        KeyBrokerError::InvalidCursor => Some("InvalidCursor"@),
        KeyBrokerError::AuthorizationMissing => Some("AuthorizationMissing"@),
        _ => None,
    }
}

/// The description of a key broker error.
pub open spec fn key_broker_message(e: KeyBrokerError) -> Seq<char> {
    match e {
        KeyBrokerError::InvalidInstanceSecret => "Invalid instance secret"@,
        KeyBrokerError::InstanceNameTooLong => "Instance name too long"@,
        KeyBrokerError::IssuedTooFarInPast => "Could not issue authorization. Issued TS too far in past."@,
        KeyBrokerError::UndecodableAdminKey => "Couldn't decode the AdminKeyProto"@,
        KeyBrokerError::InvalidAdminKeyFormat => "Invalid admin key format"@,
        KeyBrokerError::KeyForOtherInstance => "Key is for invalid instance"@,
        KeyBrokerError::MissingIssuedTime => "Proto missing issued_s"@,
        KeyBrokerError::MissingIdentity => "Proto missing identity"@,
        KeyBrokerError::StorageTokenInvalid => "Couldn't decode the StoreFileAuthorization token"@,
        KeyBrokerError::InvalidStorageToken => "Storage token is for invalid instance {instance_name}"@,
        KeyBrokerError::StorageTokenExpired => "Store File Authorization expired"@,
        KeyBrokerError::InvalidCursor => "Failed to parse cursor"@,
        KeyBrokerError::UndecodableActionToken => "Couldn't decode ActionCallbackTokenProto"@,
        KeyBrokerError::ActionTokenExpired => "Action callback token expired"@,
        KeyBrokerError::AuthorizationMissing => "This request requires the HTTP `Authorization` header."@,
        KeyBrokerError::MissingIdentityField => "Missing identity field"@,
        KeyBrokerError::MissingNestedIdentity => "Missing nested identity"@,
    }
}

impl KeyBrokerError {
    /// The stable short code of errors that reach users, if any.
    pub fn short_code(&self) -> (r: Option<&'static str>)
        ensures
            match key_broker_code(*self) {
                Some(c) => r matches Some(t) && t@ == c,
                None => r is None,
            },
    {
        match self {
            KeyBrokerError::StorageTokenInvalid => Some("StorageTokenInvalid"),
            KeyBrokerError::InvalidStorageToken => Some("InvalidStorageToken"),
            KeyBrokerError::StorageTokenExpired => Some("StorageTokenExpired"),
            KeyBrokerError::InvalidCursor => Some("InvalidCursor"),
            KeyBrokerError::AuthorizationMissing => Some("AuthorizationMissing"),
            _ => None,
        }
    }

    /// A description of the error.
    pub fn message(&self) -> (r: &'static str)
        ensures
            r@ == key_broker_message(*self),
    {
        match self {
            KeyBrokerError::InvalidInstanceSecret => "Invalid instance secret",
            KeyBrokerError::InstanceNameTooLong => "Instance name too long",
            KeyBrokerError::IssuedTooFarInPast => {
                "Could not issue authorization. Issued TS too far in past."
            },
            KeyBrokerError::UndecodableAdminKey => "Couldn't decode the AdminKeyProto",
            KeyBrokerError::InvalidAdminKeyFormat => "Invalid admin key format",
            KeyBrokerError::KeyForOtherInstance => "Key is for invalid instance",
            KeyBrokerError::MissingIssuedTime => "Proto missing issued_s",
            KeyBrokerError::MissingIdentity => "Proto missing identity",
            KeyBrokerError::StorageTokenInvalid => "Couldn't decode the StoreFileAuthorization token",
            KeyBrokerError::InvalidStorageToken => "Storage token is for invalid instance {instance_name}",
            KeyBrokerError::StorageTokenExpired => "Store File Authorization expired",
            KeyBrokerError::InvalidCursor => "Failed to parse cursor",
            KeyBrokerError::UndecodableActionToken => "Couldn't decode ActionCallbackTokenProto",
            KeyBrokerError::ActionTokenExpired => "Action callback token expired",
            KeyBrokerError::AuthorizationMissing => {
                "This request requires the HTTP `Authorization` header."
            },
            KeyBrokerError::MissingIdentityField => "Missing identity field",
            KeyBrokerError::MissingNestedIdentity => "Missing nested identity",
        }
    }
}

/// The error of a cursor that cannot be read.
pub fn cursor_parse_error() -> (r: KeyBrokerError)
    ensures
        r == KeyBrokerError::InvalidCursor,
{
    KeyBrokerError::InvalidCursor
}

/// The secret that an instance's tokens are sealed under.
pub struct InstanceSecret {
    pub bytes: Vec<u8>,
}

/// Identifies a member of the instance's team.
#[derive(Debug, Clone, Copy, PartialEq, Eq, Structural)]
pub struct MemberId(pub u64);

/// An admin or system key: the instance name, a `|`, and the sealed token.
pub struct AdminKey(String);

impl AdminKey {
    pub fn new(key: String) -> (r: AdminKey)
        ensures
            r@ == key@,
    {
        AdminKey(key)
    }

    pub fn as_str(&self) -> (r: &str)
        ensures
            r@ == self@,
    {
        self.0.as_str()
    }
}

impl View for AdminKey {
    type V = Seq<char>;

    closed spec fn view(&self) -> Seq<char> {
        self.0@
    }
}

/// An encrypted system key.
pub struct SystemKey(String);

impl SystemKey {
    pub fn as_str(&self) -> (r: &str)
        ensures
            r@ == self@,
    {
        self.0.as_str()
    }
}

impl View for SystemKey {
    type V = Seq<char>;

    closed spec fn view(&self) -> Seq<char> {
        self.0@
    }
}

/// An encrypted authorization to store a file.
#[derive(Debug)]
pub struct StoreFileAuthorization(String);

impl StoreFileAuthorization {
    pub fn as_str(&self) -> (r: &str)
        ensures
            r@ == self@,
    {
        self.0.as_str()
    }
}

impl View for StoreFileAuthorization {
    type V = Seq<char>;

    closed spec fn view(&self) -> Seq<char> {
        self.0@
    }
}

/// An encrypted authorization to get a file.
#[derive(Debug)]
pub struct GetFileAuthorization(String);

impl GetFileAuthorization {
    pub fn as_str(&self) -> (r: &str)
        ensures
            r@ == self@,
    {
        self.0.as_str()
    }
}

impl View for GetFileAuthorization {
    type V = Seq<char>;

    closed spec fn view(&self) -> Seq<char> {
        self.0@
    }
}

/// The bytes of an admin key: the instance name, a `|`, and the token.
pub open spec fn admin_key_text(name: Seq<u8>, token: Seq<u8>) -> Seq<u8> {
    name + seq![124u8] + token
}

/// The payload a fresh admin key (member) or system key (`None`) seals.
pub open spec fn issued_key_payload(member_id: Option<u64>, issued_s: u64) -> AdminKeyView {
    AdminKeyView {
        instance_name: None,
        issued_s,
        identity: Some(
            match member_id {
                Some(m) => AdminKeyIdentity::MemberId(m),
                None => AdminKeyIdentity::System,
            },
        ),
    }
}

/// Issues and checks the tokens of one instance.
pub struct KeyBroker {
    instance_name: String,
    encryptor: Encryptor,
}

impl KeyBroker {
    /// The UTF-8 bytes of the instance name.
    pub closed spec fn name_bytes(&self) -> Seq<u8> {
        encode_utf8(self.instance_name@)
    }

    pub closed spec fn name(&self) -> Seq<char> {
        self.instance_name@
    }

    /// The secret tokens are sealed under.
    pub closed spec fn secret(&self) -> Seq<u8> {
        self.encryptor@
    }

    pub closed spec fn wf(&self) -> bool {
        &&& self.encryptor.wf()
        &&& encode_utf8(self.instance_name@).len() < u32::MAX
    }

    /// The name's bytes are its UTF-8 encoding, and fit a token field.
    pub proof fn lemma_name_bytes(&self)
        ensures
            self.name_bytes() == encode_utf8(self.name()),
            self.wf() ==> self.name_bytes().len() < u32::MAX,
    {
    }

    pub fn new(instance_name: &str, instance_secret: InstanceSecret) -> (r: Result<KeyBroker, KeyBrokerError>)
        ensures
            instance_secret.bytes@.len() != SECRET_LEN ==> r == Err::<KeyBroker, KeyBrokerError>(
                KeyBrokerError::InvalidInstanceSecret,
            ),
            instance_secret.bytes@.len() == SECRET_LEN && encode_utf8(instance_name@).len() >= u32::MAX
                ==> r == Err::<KeyBroker, KeyBrokerError>(KeyBrokerError::InstanceNameTooLong),
            instance_secret.bytes@.len() == SECRET_LEN && encode_utf8(instance_name@).len() < u32::MAX
                ==> (r matches Ok(kb) && kb.wf() && kb.name() == instance_name@ && kb.secret()
                == instance_secret.bytes@ && kb.name_bytes() == encode_utf8(instance_name@)
                && kb.name_bytes().len() < u32::MAX),
    {
        let encryptor = match Encryptor::new(&instance_secret.bytes) {
            Some(e) => e,
            None => {
                return Err(KeyBrokerError::InvalidInstanceSecret);
            },
        };
        if instance_name.as_bytes().len() >= u32::MAX as usize {
            return Err(KeyBrokerError::InstanceNameTooLong);
        }
        Ok(KeyBroker { instance_name: instance_name.to_owned(), encryptor })
    }

    /// The encryptor that seals this instance's tokens.
    pub fn encryptor(&self) -> (r: &Encryptor)
        ensures
            r@ == self.secret(),
            self.wf() ==> r.wf(),
    {
        &self.encryptor
    }

    /// The broker of the development instance.
    pub fn dev() -> (r: KeyBroker)
        ensures
            r.wf(),
            r.name() == DEV_INSTANCE_NAME@,
            r.name_bytes() == dev_name_bytes(),
    {
        let secret = InstanceSecret {
            bytes: vec![
                0x43, 0x61, 0x72, 0x6e, 0x69, 0x74, 0x61, 0x73, 0x2c, 0x20, 0x6c, 0x69, 0x74, 0x65,
                0x72, 0x61, 0x6c, 0x6c, 0x79, 0x20, 0x6d, 0x65, 0x61, 0x6e, 0x69, 0x6e, 0x67, 0x20,
                0x22, 0x6c, 0x69, 0x74,
            ],
        };
        proof {
            reveal_strlit("carnitas");
            assert(DEV_INSTANCE_NAME@ =~= seq!['c', 'a', 'r', 'n', 'i', 't', 'a', 's']);
            assert(encode_utf8(DEV_INSTANCE_NAME@) == dev_name_bytes()) by {
                lemma_ascii_bytes_utf8(dev_name_bytes());
                assert(ascii_chars(dev_name_bytes()) =~= DEV_INSTANCE_NAME@);
            }
        }
        match Self::new(DEV_INSTANCE_NAME, secret) {
            Ok(kb) => kb,
            Err(_) => vstd::pervasive::unreached(),
        }
    }
}

/// The bytes of the development instance's name.
pub open spec fn dev_name_bytes() -> Seq<u8> {
    seq![99u8, 97, 114, 110, 105, 116, 97, 115]
}

/// The current time in seconds for a token's issue time; a clock at or
/// before the epoch issues at second 1, since an issue time of 0 is refused.
fn issue_time_now() -> (r: u64)
    ensures
        r > 0,
{
    let t = unix_seconds_now();
    if t == 0 {
        1
    } else {
        t
    }
}

/// The first index of byte `c` in `b`, if `b` holds it.
pub open spec fn first_index(b: Seq<u8>, c: u8) -> Option<int> {
    if exists|i: int| 0 <= i < b.len() && b[i] == c && forall|k: int| 0 <= k < i ==> b[k] != c {
        Some(choose|i: int| 0 <= i < b.len() && b[i] == c && forall|k: int| 0 <= k < i ==> b[k] != c)
    } else {
        None
    }
}

/// The first index of byte `c` in `b`, if any.
pub fn find_byte(b: &[u8], c: u8) -> (r: Option<usize>)
    ensures
        match first_index(b@, c) {
            Some(i) => r == Some(i as usize),
            None => r is None,
        },
        r matches Some(i) ==> i < b@.len() && b@[i as int] == c,
{
    let mut i: usize = 0;
    while i < b.len()
        invariant
            0 <= i <= b@.len(),
            forall|k: int| 0 <= k < i ==> b@[k] != c,
        decreases b@.len() - i,
    {
        if b[i] == c {
            proof {
                let j = choose|j: int| 0 <= j < b@.len() && b@[j] == c && forall|k: int| 0 <= k < j ==> b@[k] != c;
                if j < i {
                    assert(b@[j] != c);
                }
                if j > i {
                    assert(b@[i as int] != c);
                }
            }
            return Some(i);
        }
        i = i + 1;
    }
    None
}

/// An admin key's bytes split at the first `|`: the instance name (absent
/// when there is no `|`) and the encrypted part.
pub open spec fn split_admin_key(b: Seq<u8>) -> (Option<Seq<u8>>, Seq<u8>) {
    match first_index(b, 124u8) {
        Some(i) => (Some(b.take(i)), b.skip(i + 1)),
        None => (None, b),
    }
}

/// An instance name without its deployment type prefix (through the first `:`).
pub open spec fn strip_type_prefix(n: Seq<u8>) -> Seq<u8> {
    match first_index(n, 58u8) {
        Some(i) => n.skip(i + 1),
        None => n,
    }
}

/// The instance name an admin key names before its `|`, without type prefix.
pub open spec fn key_instance_name(b: Seq<u8>) -> Option<Seq<u8>> {
    match split_admin_key(b).0 {
        Some(n) => Some(strip_type_prefix(n)),
        None => None,
    }
}

fn copy_range(b: &[u8], from: usize, to: usize) -> (r: Vec<u8>)
    requires
        from <= to <= b@.len(),
    ensures
        r@ == b@.subrange(from as int, to as int),
{
    let mut r: Vec<u8> = Vec::new();
    let mut i: usize = from;
    while i < to
        invariant
            from <= i <= to,
            to <= b@.len(),
            r@ == b@.subrange(from as int, i as int),
        decreases to - i,
    {
        r.push(b[i]);
        i = i + 1;
        assert(r@ =~= b@.subrange(from as int, i as int));
    }
    r
}

/// The payload that bytes encode, if they encode one.
pub open spec fn parsed_admin_key(b: Seq<u8>) -> Option<AdminKeyView> {
    if exists|v: AdminKeyView| admin_key_fits(v) && admin_key_payload(v) == b {
        Some(choose|v: AdminKeyView| admin_key_fits(v) && admin_key_payload(v) == b)
    } else {
        None
    }
}

fn decode_admin_key(b: &[u8]) -> (r: Option<AdminKeyProto>)
    ensures
        match parsed_admin_key(b@) {
            Some(v) => r matches Some(p) && p@ == v,
            None => r is None,
        },
{
    let r = AdminKeyProto::decode(b);
    proof {
        if parsed_admin_key(b@) is Some {
            let v = parsed_admin_key(b@)->0;
            assert(admin_key_fits(v) && admin_key_payload(v) == b@);
        }
    }
    r
}

/// An admin identity: possession of it confers admin rights on the instance.
#[derive(Debug)]
pub struct AdminIdentity {
    instance_name: String,
    member_id: MemberId,
    key: String,
}

impl AdminIdentity {
    pub closed spec fn instance(&self) -> Seq<char> {
        self.instance_name@
    }

    pub closed spec fn member(&self) -> MemberId {
        self.member_id
    }

    pub closed spec fn key_text(&self) -> Seq<char> {
        self.key@
    }

    pub fn new_for_test_only(instance_name: String, member_id: MemberId) -> (r: AdminIdentity)
        ensures
            r.instance() == instance_name@,
            r.member() == member_id,
    {
        AdminIdentity { instance_name, member_id, key: "chocolate-charlies-cupcake".to_owned() }
    }

    pub fn instance_name(&self) -> (r: &str)
        ensures
            r@ == self.instance(),
    {
        self.instance_name.as_str()
    }

    pub fn member_id(&self) -> (r: MemberId)
        ensures
            r == self.member(),
    {
        self.member_id
    }

    pub fn key(&self) -> (r: &str)
        ensures
            r@ == self.key_text(),
    {
        self.key.as_str()
    }

    /// Whether both are the same admin of the same instance with the same key.
    pub fn same_as(&self, other: &AdminIdentity) -> (r: bool)
        ensures
            r == (self.instance() == other.instance() && self.member() == other.member()
                && self.key_text() == other.key_text()),
    {
        self.instance_name == other.instance_name && self.member_id.0 == other.member_id.0
            && self.key == other.key
    }
}

/// The system identity.
#[derive(Debug, Clone, Copy, PartialEq, Eq, Hash, Structural)]
pub struct SystemIdentity;

/// Attributes of an authenticated user, as the identity provider states them.
#[derive(Debug)]
pub struct UserIdentityAttributes {
    pub token_identifier: String,
    pub subject: Option<String>,
    pub issuer: Option<String>,
    pub name: Option<String>,
    pub email: Option<String>,
}

/// A user authenticated by an identity provider.
#[derive(Debug)]
pub struct UserIdentity {
    pub subject: String,
    pub issuer: String,
    /// Expiration time, in seconds since the Unix epoch.
    pub expiration_s: u64,
    pub attributes: UserIdentityAttributes,
    /// The token this identity was made from.
    pub original_token: String,
}

impl UserIdentity {
    /// Whether the identity has expired at `current_s`.
    pub fn is_expired(&self, current_s: u64) -> (r: bool)
        ensures
            r == (current_s >= self.expiration_s),
    {
        current_s >= self.expiration_s
    }
}

/// The result of authentication.
#[derive(Debug)]
pub enum Identity {
    InstanceAdmin(AdminIdentity),
    System(SystemIdentity),
    User(UserIdentity),
    /// An admin acting as a user with the given attributes.
    ActingUser(AdminIdentity, UserIdentityAttributes),
    Unknown,
}

impl KeyBroker {
    /// What checking an admin key yields, given the instance name the key
    /// names and the payload its token opened to.
    pub open spec fn admin_check_is(
        &self,
        key: Seq<char>,
        name_in_key: Option<Seq<u8>>,
        payload: Option<AdminKeyView>,
        r: Result<Identity, KeyBrokerError>,
    ) -> bool {
        match payload {
            None => r == Err::<Identity, KeyBrokerError>(KeyBrokerError::UndecodableAdminKey),
            Some(v) => {
                let name = match name_in_key {
                    Some(n) => Some(n),
                    None => v.instance_name,
                };
                if name is None {
                    r == Err::<Identity, KeyBrokerError>(KeyBrokerError::InvalidAdminKeyFormat)
                } else if name->0 != self.name_bytes() {
                    r == Err::<Identity, KeyBrokerError>(KeyBrokerError::KeyForOtherInstance)
                } else if v.issued_s == 0 {
                    r == Err::<Identity, KeyBrokerError>(KeyBrokerError::MissingIssuedTime)
                } else {
                    match v.identity {
                        None => r == Err::<Identity, KeyBrokerError>(KeyBrokerError::MissingIdentity),
                        Some(AdminKeyIdentity::MemberId(m)) => r matches Ok(Identity::InstanceAdmin(a))
                            && a.instance() == self.name() && a.member() == MemberId(m) && a.key_text()
                            == key,
                        Some(AdminKeyIdentity::System) => r matches Ok(Identity::System(_)),
                    }
                }
            },
        }
    }

    /// Checks an admin key whose token opened to `payload` (`None` when it did
    /// not open) and which names `name_in_key` before its `|`.
    pub fn identity_from_admin_key(
        &self,
        key: &str,
        name_in_key: Option<Vec<u8>>,
        payload: Option<Vec<u8>>,
    ) -> (r: Result<Identity, KeyBrokerError>)
        ensures
            self.admin_check_is(
                key@,
                opt_view(name_in_key),
                match payload {
                    Some(p) => parsed_admin_key(p@),
                    None => None,
                },
                r,
            ),
    {
        let proto = match payload {
            Some(p) => match decode_admin_key(p.as_slice()) {
                Some(proto) => proto,
                None => {
                    return Err(KeyBrokerError::UndecodableAdminKey);
                },
            },
            None => {
                return Err(KeyBrokerError::UndecodableAdminKey);
            },
        };
        let name = match name_in_key {
            Some(n) => n,
            None => match proto.instance_name {
                Some(n) => n,
                None => {
                    return Err(KeyBrokerError::InvalidAdminKeyFormat);
                },
            },
        };
        if !bytes_equal(name.as_slice(), self.instance_name.as_str().as_bytes()) {
            return Err(KeyBrokerError::KeyForOtherInstance);
        }
        if proto.issued_s == 0 {
            return Err(KeyBrokerError::MissingIssuedTime);
        }
        match proto.identity {
            None => Err(KeyBrokerError::MissingIdentity),
            Some(AdminKeyIdentity::MemberId(m)) => Ok(
                Identity::InstanceAdmin(
                    AdminIdentity {
                        instance_name: self.instance_name.clone(),
                        member_id: MemberId(m),
                        key: key.to_owned(),
                    },
                ),
            ),
            Some(AdminKeyIdentity::System) => Ok(Identity::System(SystemIdentity)),
        }
    }
}

/// Whether two byte strings are equal.
pub fn bytes_equal(a: &[u8], b: &[u8]) -> (r: bool)
    ensures
        r == (a@ == b@),
{
    if a.len() != b.len() {
        return false;
    }
    let mut i: usize = 0;
    while i < a.len()
        invariant
            0 <= i <= a@.len(),
            a@.len() == b@.len(),
            forall|k: int| 0 <= k < i ==> a@[k] == b@[k],
        decreases a@.len() - i,
    {
        if a[i] != b[i] {
            return false;
        }
        i = i + 1;
    }
    assert(a@ =~= b@);
    true
}

proof fn lemma_admin_payload_fits(v: AdminKeyView)
    requires
        admin_key_fits(v),
    ensures
        admin_key_payload(v).len() <= MAX_PLAINTEXT_LEN,
        fields_fit(admin_key_fields(v)),
{
    let fs = admin_key_fields(v);
    assert(fields_fit(fs)) by {
        assert forall|i: int| 0 <= i < fs.len() implies (#[trigger] fs[i]).len() <= u32::MAX by {
            if i == 0 {
                assert(identity_field(v.identity).len() <= 9);
            }
        }
    }
    lemma_frame_len_bound(fs);
}

/// Ascii bytes after UTF-8 text are valid UTF-8 as a whole.
proof fn lemma_text_then_ascii(text: Seq<char>, tail: Seq<u8>)
    requires
        forall|i: int| 0 <= i < tail.len() ==> #[trigger] tail[i] < 128,
    ensures
        valid_utf8(encode_utf8(text) + tail),
        encode_utf8(text + ascii_chars(tail)) == encode_utf8(text) + tail,
{
    lemma_ascii_bytes_utf8(tail);
    lemma_utf8_concat(text, ascii_chars(tail));
    encode_utf8_valid_utf8(text + ascii_chars(tail));
}

impl KeyBroker {
    /// The admin key (`member_id` given) or system key issued at `issued_s`
    /// with `nonce`.
    pub fn issue_key_at(&self, member_id: Option<u64>, issued_s: u64, nonce: &Vec<u8>) -> (r: String)
        requires
            self.wf(),
            nonce@.len() == NONCE_LEN,
        ensures
            encode_utf8(r@) == admin_key_text(
                self.name_bytes(),
                token_text(
                    self.secret(),
                    ADMIN_KEY_VERSION,
                    nonce@,
                    admin_key_payload(issued_key_payload(member_id, issued_s)),
                ),
            ),
    {
        let identity = match member_id {
            Some(m) => AdminKeyIdentity::MemberId(m),
            None => AdminKeyIdentity::System,
        };
        let proto = AdminKeyProto { instance_name: None, issued_s, identity: Some(identity) };
        assert(proto@ == issued_key_payload(member_id, issued_s));
        proof {
            lemma_admin_payload_fits(proto@);
        }
        let payload = proto.encode();
        let token = self.encryptor.encode_with_nonce(ADMIN_KEY_VERSION, nonce, &payload);
        let name = self.instance_name.as_str().as_bytes();
        let mut bytes = copy_range(name, 0, name.len());
        bytes.push(124u8);
        let mut i: usize = 0;
        while i < token.len()
            invariant
                0 <= i <= token@.len(),
                bytes@ == name@ + seq![124u8] + token@.subrange(0, i as int),
            decreases token@.len() - i,
        {
            bytes.push(token[i]);
            i = i + 1;
            assert(bytes@ =~= name@ + seq![124u8] + token@.subrange(0, i as int));
        }
        proof {
            assert(name@.subrange(0, name@.len() as int) =~= name@);
            assert(token@.subrange(0, token@.len() as int) =~= token@);
            let tail = seq![124u8] + token@;
            assert forall|k: int| 0 <= k < tail.len() implies #[trigger] tail[k] < 128 by {
                if k > 0 {
                    assert(tail[k] == token@[k - 1]);
                }
            }
            lemma_text_then_ascii(self.instance_name@, tail);
            assert(bytes@ =~= encode_utf8(self.instance_name@) + tail);
        }
        match string_from_utf8(bytes) {
            Some(s) => s,
            None => vstd::pervasive::unreached(),
        }
    }

    /// A new admin key for `member_id`, issued now.
    pub fn issue_admin_key(&self, member_id: MemberId) -> (r: AdminKey)
        requires
            self.wf(),
        ensures
            exists|nonce: Seq<u8>, issued_s: u64|
                nonce.len() == NONCE_LEN && issued_s > 0 && encode_utf8(r@) == admin_key_text(
                    self.name_bytes(),
                    token_text(
                        self.secret(),
                        ADMIN_KEY_VERSION,
                        nonce,
                        admin_key_payload(issued_key_payload(Some(member_id.0), issued_s)),
                    ),
                ),
    {
        let issued_s = issue_time_now();
        let nonce = fresh_nonce();
        AdminKey(self.issue_key_at(Some(member_id.0), issued_s, &nonce))
    }

    /// A new system key, issued now.
    pub fn issue_system_key(&self) -> (r: SystemKey)
        requires
            self.wf(),
        ensures
            exists|nonce: Seq<u8>, issued_s: u64|
                nonce.len() == NONCE_LEN && issued_s > 0 && encode_utf8(r@) == admin_key_text(
                    self.name_bytes(),
                    token_text(
                        self.secret(),
                        ADMIN_KEY_VERSION,
                        nonce,
                        admin_key_payload(issued_key_payload(None, issued_s)),
                    ),
                ),
    {
        let issued_s = issue_time_now();
        let nonce = fresh_nonce();
        SystemKey(self.issue_key_at(None, issued_s, &nonce))
    }

    /// Checks an admin or system key. A key sealed under this instance's
    /// secret yields what its payload says, as `admin_check_is` states; any
    /// key accepted names this instance before its `|`, if it names one.
    pub fn check_admin_key(&self, key: &str) -> (r: Result<Identity, KeyBrokerError>)
        requires
            self.wf(),
        ensures
            forall|nonce: Seq<u8>, v: AdminKeyView|
                nonce.len() == NONCE_LEN && admin_key_fits(v) && split_admin_key(encode_utf8(key@)).1
                    == #[trigger] token_text(self.secret(), ADMIN_KEY_VERSION, nonce, admin_key_payload(v))
                    ==> self.admin_check_is(key@, key_instance_name(encode_utf8(key@)), Some(v), r),
            r is Ok ==> (key_instance_name(encode_utf8(key@)) matches Some(n) ==> n == self.name_bytes()),
            malformed_token(split_admin_key(encode_utf8(key@)).1, ADMIN_KEY_VERSION) ==> r
                == Err::<Identity, KeyBrokerError>(KeyBrokerError::UndecodableAdminKey),
    {
        let b = key.as_bytes();
        let blen = b.len();
        let (name_in_key, enc) = match find_byte(b, 124u8) {
            Some(i) => {
                let name = copy_range(b, 0, i);
                let stripped = match find_byte(name.as_slice(), 58u8) {
                    Some(j) => copy_range(name.as_slice(), j + 1, name.len()),
                    None => name,
                };
                assert(b@.take(i as int) =~= b@.subrange(0, i as int));
                assert(b@.skip(i + 1) =~= b@.subrange(i + 1, b@.len() as int));
                assert(stripped@ == strip_type_prefix(b@.take(i as int))) by {
                    if first_index(b@.take(i as int), 58u8) is Some {
                        let j = first_index(b@.take(i as int), 58u8)->0;
                        assert(b@.take(i as int).skip(j + 1) =~= b@.take(i as int).subrange(j + 1, i as int));
                    }
                }
                (Some(stripped), copy_range(b, i + 1, blen))
            },
            None => {
                assert(b@.subrange(0, b@.len() as int) =~= b@);
                (None, copy_range(b, 0, b.len()))
            },
        };
        let payload = self.encryptor.decode(ADMIN_KEY_VERSION, enc.as_slice());
        proof {
            assert forall|nonce: Seq<u8>, v: AdminKeyView|
                nonce.len() == NONCE_LEN && admin_key_fits(v) && split_admin_key(encode_utf8(key@)).1
                    == #[trigger] token_text(self.secret(), ADMIN_KEY_VERSION, nonce, admin_key_payload(v))
                implies payload matches Some(p) && parsed_admin_key(p@) == Some(v) by {
                lemma_admin_payload_fits(v);
                assert(enc@ == token_text(self.secret(), ADMIN_KEY_VERSION, nonce, admin_key_payload(v)));
                let p = payload->0;
                assert(p@ == admin_key_payload(v));
                assert(exists|w: AdminKeyView| admin_key_fits(w) && admin_key_payload(w) == p@);
                let w = choose|w: AdminKeyView| admin_key_fits(w) && admin_key_payload(w) == p@;
                lemma_admin_payload_injective(v, w);
            }
        }
        self.identity_from_admin_key(key, name_in_key, payload)
    }
}

proof fn lemma_first_index_at(b: Seq<u8>, c: u8, i: int)
    requires
        0 <= i < b.len(),
        b[i] == c,
        forall|k: int| 0 <= k < i ==> b[k] != c,
    ensures
        first_index(b, c) == Some(i),
{
    let j = choose|j: int| 0 <= j < b.len() && b[j] == c && forall|k: int| 0 <= k < j ==> b[k] != c;
    if j < i {
        assert(b[j] != c);
    }
    if j > i {
        assert(b[i] != c);
    }
}

/// A key the broker issues checks back to the identity it was issued for,
/// bare or behind a deployment type prefix such as `prod:`, provided the
/// instance name holds no `|` or `:` and the issue time is not zero: the key
/// splits at the instance name into the issued token, and whatever
/// `admin_check_is` allows for its payload is that identity.
pub proof fn lemma_admin_key_round_trip(
    kb: KeyBroker,
    prefix: Seq<u8>,
    key: Seq<char>,
    member_id: Option<u64>,
    issued_s: u64,
    nonce: Seq<u8>,
)
    requires
        kb.wf(),
        nonce.len() == NONCE_LEN,
        issued_s != 0,
        !kb.name_bytes().contains(124u8),
        !kb.name_bytes().contains(58u8),
        prefix.len() == 0 || (prefix.last() == 58u8 && !prefix.drop_last().contains(58u8)
            && !prefix.contains(124u8)),
        encode_utf8(key) == prefix + admin_key_text(
            kb.name_bytes(),
            token_text(
                kb.secret(),
                ADMIN_KEY_VERSION,
                nonce,
                admin_key_payload(issued_key_payload(member_id, issued_s)),
            ),
        ),
    ensures
        split_admin_key(encode_utf8(key)).1 == token_text(
            kb.secret(),
            ADMIN_KEY_VERSION,
            nonce,
            admin_key_payload(issued_key_payload(member_id, issued_s)),
        ),
        key_instance_name(encode_utf8(key)) == Some(kb.name_bytes()),
        admin_key_fits(issued_key_payload(member_id, issued_s)),
        forall|r: Result<Identity, KeyBrokerError>|
            #[trigger] kb.admin_check_is(
                key,
                key_instance_name(encode_utf8(key)),
                Some(issued_key_payload(member_id, issued_s)),
                r,
            ) ==> match member_id {
                Some(m) => r matches Ok(Identity::InstanceAdmin(a)) && a.member() == MemberId(m)
                    && a.instance() == kb.name(),
                None => r matches Ok(Identity::System(_)),
            },
{
    let token = token_text(
        kb.secret(),
        ADMIN_KEY_VERSION,
        nonce,
        admin_key_payload(issued_key_payload(member_id, issued_s)),
    );
    lemma_key_parts(prefix, kb.name_bytes(), token, encode_utf8(key));
    assert(identity_field(Some(AdminKeyIdentity::System)).len() == 1);
}

/// The development instance's name holds no `|` and no `:`.
pub proof fn lemma_dev_name_plain()
    ensures
        !dev_name_bytes().contains(124u8),
        !dev_name_bytes().contains(58u8),
{
    let n = dev_name_bytes();
    assert forall|k: int| 0 <= k < n.len() implies n[k] != 124u8 && n[k] != 58u8 by {
        assert(n[k] >= 97);
    }
}

/// Token text holds only hexadecimal digits, so never a `|`.
pub proof fn lemma_token_text_has_no_bar(key: Seq<u8>, version: u8, nonce: Seq<u8>, payload: Seq<u8>)
    ensures
        !token_text(key, version, nonce, payload).contains(124u8),
        first_index(token_text(key, version, nonce, payload), 124u8) is None,
{
    let t = token_text(key, version, nonce, payload);
    assert forall|k: int| 0 <= k < t.len() implies t[k] != 124u8 by {
        let raw = seq![version] + nonce + sealed(key, nonce, payload);
        let x = raw[k / 2];
        assert(x / 16 < 16 && x % 16 < 16);
    }
}

/// A key of the older form, a bare token whose payload names the instance,
/// checks back to the member it names, provided the issue time is not zero.
pub proof fn lemma_old_admin_key_round_trip(
    kb: KeyBroker,
    key: Seq<char>,
    member_id: u64,
    issued_s: u64,
    nonce: Seq<u8>,
)
    requires
        kb.wf(),
        nonce.len() == NONCE_LEN,
        issued_s != 0,
        encode_utf8(key) == token_text(
            kb.secret(),
            ADMIN_KEY_VERSION,
            nonce,
            admin_key_payload(old_key_payload(kb.name_bytes(), member_id, issued_s)),
        ),
    ensures
        split_admin_key(encode_utf8(key)).1 == encode_utf8(key),
        key_instance_name(encode_utf8(key)) is None,
        admin_key_fits(old_key_payload(kb.name_bytes(), member_id, issued_s)),
        forall|r: Result<Identity, KeyBrokerError>|
            #[trigger] kb.admin_check_is(
                key,
                key_instance_name(encode_utf8(key)),
                Some(old_key_payload(kb.name_bytes(), member_id, issued_s)),
                r,
            ) ==> (r matches Ok(Identity::InstanceAdmin(a)) && a.member() == MemberId(member_id)
                && a.instance() == kb.name()),
{
    kb.lemma_name_bytes();
    lemma_token_text_has_no_bar(
        kb.secret(),
        ADMIN_KEY_VERSION,
        nonce,
        admin_key_payload(old_key_payload(kb.name_bytes(), member_id, issued_s)),
    );
}

/// The payload of an older-form admin key: the instance name inside.
pub open spec fn old_key_payload(name: Seq<u8>, member_id: u64, issued_s: u64) -> AdminKeyView {
    AdminKeyView {
        instance_name: Some(name),
        issued_s,
        identity: Some(AdminKeyIdentity::MemberId(member_id)),
    }
}

/// The parts of a key made of a type prefix, an instance name, a `|` and a token.
pub proof fn lemma_key_parts(prefix: Seq<u8>, name: Seq<u8>, token: Seq<u8>, b: Seq<u8>)
    requires
        !name.contains(124u8),
        !name.contains(58u8),
        prefix.len() == 0 || (prefix.last() == 58u8 && !prefix.drop_last().contains(58u8)
            && !prefix.contains(124u8)),
        b == prefix + admin_key_text(name, token),
    ensures
        split_admin_key(b).1 == token,
        key_instance_name(b) == Some(name),
{
    let pn = prefix + name;
    assert(b =~= pn + seq![124u8] + token);
    let at = pn.len() as int;
    assert forall|k: int| 0 <= k < at implies b[k] != 124u8 by {
        assert(b[k] == pn[k]);
        if k < prefix.len() {
            assert(prefix[k] == pn[k]);
            assert(prefix.contains(prefix[k]));
        } else {
            assert(name[k - prefix.len()] == pn[k]);
            assert(name.contains(name[k - prefix.len()]));
        }
    }
    lemma_first_index_at(b, 124u8, at);
    assert(b.take(at) =~= pn);
    assert(b.skip(at + 1) =~= token);
    if prefix.len() == 0 {
        assert(pn =~= name);
        assert forall|k: int| 0 <= k < pn.len() implies pn[k] != 58u8 by {
            assert(name.contains(pn[k]));
        }
        assert(first_index(pn, 58u8) is None);
    } else {
        let p = prefix.len() - 1;
        assert forall|k: int| 0 <= k < p implies pn[k] != 58u8 by {
            assert(prefix.drop_last()[k] == pn[k]);
            assert(prefix.drop_last().contains(pn[k]));
        }
        lemma_first_index_at(pn, 58u8, p);
        assert(pn.skip(p + 1) =~= name);
    }
}

/// A string of ASCII bytes.
fn ascii_string(bytes: Vec<u8>) -> (r: String)
    requires
        forall|i: int| 0 <= i < bytes@.len() ==> #[trigger] bytes@[i] < 128,
    ensures
        encode_utf8(r@) == bytes@,
{
    proof {
        lemma_text_then_ascii(Seq::<char>::empty(), bytes@);
        assert(encode_utf8(Seq::<char>::empty()) + bytes@ =~= bytes@);
    }
    match string_from_utf8(bytes) {
        Some(s) => s,
        None => vstd::pervasive::unreached(),
    }
}

/// The payload of a storage authorization for this instance issued at `issued_s`.
pub open spec fn store_file_view(name: Seq<u8>, issued_s: u64) -> StorageTokenView {
    StorageTokenView { instance_name: name, issued_s, store_file: Some(true) }
}

proof fn lemma_storage_payload_fits(v: StorageTokenView)
    requires
        v.instance_name.len() <= u32::MAX,
    ensures
        storage_token_payload(v).len() <= MAX_PLAINTEXT_LEN,
{
    let fs = storage_token_fields(v);
    assert(fields_fit(fs)) by {
        assert forall|i: int| 0 <= i < fs.len() implies (#[trigger] fs[i]).len() <= u32::MAX by {
            if i == 2 {
                assert(fs[2].len() <= 1);
            }
        }
    }
    lemma_frame_len_bound(fs);
}

proof fn lemma_action_payload_fits(issued_s: u64)
    ensures
        action_token_payload(issued_s).len() <= MAX_PLAINTEXT_LEN,
{
    assert(fields_fit(seq![u64_bytes(issued_s)]));
    lemma_frame_len_bound(seq![u64_bytes(issued_s)]);
}

impl KeyBroker {
    /// A storage authorization issued at `issued_s` when the time is
    /// `now_s`, sealed with `nonce`; refused when `issued_s` lies more than
    /// `MAX_TS_DELAY_S` in the past.
    pub fn issue_store_file_authorization_at(
        &self,
        now_s: u64,
        issued_s: u64,
        nonce: &Vec<u8>,
    ) -> (r: Result<StoreFileAuthorization, KeyBrokerError>)
        requires
            self.wf(),
            nonce@.len() == NONCE_LEN,
        ensures
            now_s > issued_s + MAX_TS_DELAY_S ==> r == Err::<StoreFileAuthorization, KeyBrokerError>(
                KeyBrokerError::IssuedTooFarInPast,
            ),
            now_s <= issued_s + MAX_TS_DELAY_S ==> (r matches Ok(t) && encode_utf8(t@) == token_text(
                self.secret(),
                STORE_FILE_AUTHZ_VERSION,
                nonce@,
                storage_token_payload(store_file_view(self.name_bytes(), issued_s)),
            )),
    {
        if now_s > issued_s && now_s - issued_s > MAX_TS_DELAY_S {
            return Err(KeyBrokerError::IssuedTooFarInPast);
        }
        let name = self.instance_name.as_str().as_bytes();
        let proto = StorageTokenProto {
            instance_name: copy_range(name, 0, name.len()),
            issued_s,
            store_file: Some(true),
        };
        assert(name@.subrange(0, name@.len() as int) =~= name@);
        proof {
            lemma_storage_payload_fits(proto@);
        }
        let payload = proto.encode();
        let token = self.encryptor.encode_with_nonce(STORE_FILE_AUTHZ_VERSION, nonce, &payload);
        Ok(StoreFileAuthorization(ascii_string(token)))
    }

    /// A storage authorization issued at `issued_s` when the time is `now_s`.
    pub fn issue_store_file_authorization(&self, now_s: u64, issued_s: u64) -> (r: Result<
        StoreFileAuthorization,
        KeyBrokerError,
    >)
        requires
            self.wf(),
        ensures
            now_s > issued_s + MAX_TS_DELAY_S ==> r == Err::<StoreFileAuthorization, KeyBrokerError>(
                KeyBrokerError::IssuedTooFarInPast,
            ),
            now_s <= issued_s + MAX_TS_DELAY_S ==> (r matches Ok(t) && exists|nonce: Seq<u8>|
                nonce.len() == NONCE_LEN && encode_utf8(t@) == token_text(
                    self.secret(),
                    STORE_FILE_AUTHZ_VERSION,
                    nonce,
                    storage_token_payload(store_file_view(self.name_bytes(), issued_s)),
                )),
    {
        let nonce = fresh_nonce();
        self.issue_store_file_authorization_at(now_s, issued_s, &nonce)
    }

    /// What checking a storage authorization yields at `now_s`, given the
    /// payload its token opened to.
    pub open spec fn storage_check_is(
        &self,
        now_s: u64,
        validity_s: u64,
        payload: Option<StorageTokenView>,
        r: Result<(), KeyBrokerError>,
    ) -> bool {
        match payload {
            None => r == Err::<(), KeyBrokerError>(KeyBrokerError::StorageTokenInvalid),
            Some(v) => if v.instance_name != self.name_bytes() {
                r == Err::<(), KeyBrokerError>(KeyBrokerError::InvalidStorageToken)
            } else if v.issued_s == 0 {
                r == Err::<(), KeyBrokerError>(KeyBrokerError::MissingIssuedTime)
            } else if v.issued_s + validity_s <= now_s {
                r == Err::<(), KeyBrokerError>(KeyBrokerError::StorageTokenExpired)
            } else if v.store_file != Some(true) {
                r == Err::<(), KeyBrokerError>(KeyBrokerError::InvalidStorageToken)
            } else {
                r == Ok::<(), KeyBrokerError>(())
            },
        }
    }

    /// Checks a storage authorization whose token opened to `payload`
    /// (`None` when it did not open).
    pub fn storage_token_verdict(&self, now_s: u64, payload: Option<Vec<u8>>, validity_s: u64) -> (r: Result<
        (),
        KeyBrokerError,
    >)
        ensures
            payload is None ==> self.storage_check_is(now_s, validity_s, None, r),
            forall|v: StorageTokenView|
                payload matches Some(p) && v.instance_name.len() <= u32::MAX && p@ == #[trigger] storage_token_payload(v)
                    ==> self.storage_check_is(now_s, validity_s, Some(v), r),
            (payload matches Some(p) && forall|v: StorageTokenView|
                v.instance_name.len() <= u32::MAX ==> p@ != #[trigger] storage_token_payload(v))
                ==> self.storage_check_is(now_s, validity_s, None, r),
    {
        let proto = match payload {
            Some(p) => match StorageTokenProto::decode(p.as_slice()) {
                Some(proto) => proto,
                None => {
                    return Err(KeyBrokerError::StorageTokenInvalid);
                },
            },
            None => {
                return Err(KeyBrokerError::StorageTokenInvalid);
            },
        };
        if !bytes_equal(proto.instance_name.as_slice(), self.instance_name.as_str().as_bytes()) {
            return Err(KeyBrokerError::InvalidStorageToken);
        }
        if proto.issued_s == 0 {
            return Err(KeyBrokerError::MissingIssuedTime);
        }
        if proto.issued_s as u128 + validity_s as u128 <= now_s as u128 {
            return Err(KeyBrokerError::StorageTokenExpired);
        }
        match proto.store_file {
            Some(true) => Ok(()),
            _ => Err(KeyBrokerError::InvalidStorageToken),
        }
    }

    /// Checks a storage authorization at `now_s`: one sealed under this
    /// instance's secret yields what `storage_check_is` states of its payload.
    pub fn check_store_file_authorization(
        &self,
        now_s: u64,
        store_file_authorization: &str,
        validity_s: u64,
    ) -> (r: Result<(), KeyBrokerError>)
        requires
            self.wf(),
        ensures
            forall|nonce: Seq<u8>, v: StorageTokenView|
                nonce.len() == NONCE_LEN && v.instance_name.len() <= u32::MAX && encode_utf8(
                    store_file_authorization@,
                ) == #[trigger] token_text(self.secret(), STORE_FILE_AUTHZ_VERSION, nonce, storage_token_payload(v))
                    ==> self.storage_check_is(now_s, validity_s, Some(v), r),
            malformed_token(encode_utf8(store_file_authorization@), STORE_FILE_AUTHZ_VERSION) ==> r
                == Err::<(), KeyBrokerError>(KeyBrokerError::StorageTokenInvalid),
    {
        let payload = self.encryptor.decode(STORE_FILE_AUTHZ_VERSION, store_file_authorization.as_bytes());
        proof {
            assert forall|nonce: Seq<u8>, v: StorageTokenView|
                nonce.len() == NONCE_LEN && v.instance_name.len() <= u32::MAX && encode_utf8(
                    store_file_authorization@,
                ) == #[trigger] token_text(self.secret(), STORE_FILE_AUTHZ_VERSION, nonce, storage_token_payload(v))
                implies payload matches Some(p) && p@ == storage_token_payload(v) by {
                lemma_storage_payload_fits(v);
            }
        }
        self.storage_token_verdict(now_s, payload, validity_s)
    }

    /// A new action callback token issued at `issued_s`, sealed with `nonce`.
    pub fn issue_action_token_at(&self, issued_s: u64, nonce: &Vec<u8>) -> (r: String)
        requires
            self.wf(),
            nonce@.len() == NONCE_LEN,
        ensures
            encode_utf8(r@) == token_text(self.secret(), ACTION_KEY_VERSION, nonce@, action_token_payload(issued_s)),
    {
        proof {
            lemma_action_payload_fits(issued_s);
        }
        let payload = ActionCallbackTokenProto { issued_s }.encode();
        ascii_string(self.encryptor.encode_with_nonce(ACTION_KEY_VERSION, nonce, &payload))
    }

    /// A new action callback token, issued now.
    pub fn issue_action_token(&self) -> (r: String)
        requires
            self.wf(),
        ensures
            exists|nonce: Seq<u8>, issued_s: u64|
                nonce.len() == NONCE_LEN && issued_s > 0 && encode_utf8(r@) == token_text(
                    self.secret(),
                    ACTION_KEY_VERSION,
                    nonce,
                    action_token_payload(issued_s),
                ),
    {
        let issued_s = issue_time_now();
        let nonce = fresh_nonce();
        self.issue_action_token_at(issued_s, &nonce)
    }

    /// What checking an action token yields at `now_s`, given the issue time
    /// its payload holds (`None` when the token did not open or is malformed).
    pub open spec fn action_check_is(
        now_s: u64,
        validity_s: u64,
        issued: Option<u64>,
        r: Result<u64, KeyBrokerError>,
    ) -> bool {
        match issued {
            None => r == Err::<u64, KeyBrokerError>(KeyBrokerError::UndecodableActionToken),
            Some(t) => if t == 0 {
                r == Err::<u64, KeyBrokerError>(KeyBrokerError::MissingIssuedTime)
            } else if t + validity_s <= now_s {
                r == Err::<u64, KeyBrokerError>(KeyBrokerError::ActionTokenExpired)
            } else {
                r == Ok::<u64, KeyBrokerError>(t)
            },
        }
    }

    /// Checks an action token whose token opened to `payload` (`None` when
    /// it did not open); yields the issue time in seconds.
    pub fn action_token_verdict(now_s: u64, payload: Option<Vec<u8>>, validity_s: u64) -> (r: Result<
        u64,
        KeyBrokerError,
    >)
        ensures
            payload is None ==> Self::action_check_is(now_s, validity_s, None, r),
            forall|t: u64|
                payload matches Some(p) && p@ == #[trigger] action_token_payload(t) ==> Self::action_check_is(
                    now_s,
                    validity_s,
                    Some(t),
                    r,
                ),
            (payload matches Some(p) && forall|t: u64| p@ != #[trigger] action_token_payload(t))
                ==> Self::action_check_is(now_s, validity_s, None, r),
    {
        let proto = match payload {
            Some(p) => match ActionCallbackTokenProto::decode(p.as_slice()) {
                Some(proto) => proto,
                None => {
                    return Err(KeyBrokerError::UndecodableActionToken);
                },
            },
            None => {
                return Err(KeyBrokerError::UndecodableActionToken);
            },
        };
        if proto.issued_s == 0 {
            return Err(KeyBrokerError::MissingIssuedTime);
        }
        if proto.issued_s as u128 + validity_s as u128 <= now_s as u128 {
            return Err(KeyBrokerError::ActionTokenExpired);
        }
        Ok(proto.issued_s)
    }

    /// Checks an action token at `now_s`; yields its issue time in seconds.
    pub fn check_action_token_at(&self, now_s: u64, token: &str, validity_s: u64) -> (r: Result<
        u64,
        KeyBrokerError,
    >)
        requires
            self.wf(),
        ensures
            forall|nonce: Seq<u8>, t: u64|
                nonce.len() == NONCE_LEN && encode_utf8(token@) == #[trigger] token_text(
                    self.secret(),
                    ACTION_KEY_VERSION,
                    nonce,
                    action_token_payload(t),
                ) ==> Self::action_check_is(now_s, validity_s, Some(t), r),
            malformed_token(encode_utf8(token@), ACTION_KEY_VERSION) ==> r == Err::<u64, KeyBrokerError>(
                KeyBrokerError::UndecodableActionToken,
            ),
    {
        let payload = self.encryptor.decode(ACTION_KEY_VERSION, token.as_bytes());
        proof {
            assert forall|nonce: Seq<u8>, t: u64|
                nonce.len() == NONCE_LEN && encode_utf8(token@) == #[trigger] token_text(
                    self.secret(),
                    ACTION_KEY_VERSION,
                    nonce,
                    action_token_payload(t),
                ) implies payload matches Some(p) && p@ == action_token_payload(t) by {
                lemma_action_payload_fits(t);
            }
        }
        Self::action_token_verdict(now_s, payload, validity_s)
    }

    /// Checks an action token now; yields its issue time in seconds.
    pub fn check_action_token(&self, token: &str, validity_s: u64) -> (r: Result<u64, KeyBrokerError>)
        requires
            self.wf(),
        ensures
            forall|nonce: Seq<u8>, t: u64|
                nonce.len() == NONCE_LEN && encode_utf8(token@) == #[trigger] token_text(
                    self.secret(),
                    ACTION_KEY_VERSION,
                    nonce,
                    action_token_payload(t),
                ) ==> (t == 0 ==> r == Err::<u64, KeyBrokerError>(KeyBrokerError::MissingIssuedTime))
                    && (t != 0 ==> (r == Ok::<u64, KeyBrokerError>(t) || r == Err::<u64, KeyBrokerError>(
                    KeyBrokerError::ActionTokenExpired,
                ))),
            malformed_token(encode_utf8(token@), ACTION_KEY_VERSION) ==> r == Err::<u64, KeyBrokerError>(
                KeyBrokerError::UndecodableActionToken,
            ),
    {
        let now_s = unix_seconds_now();
        self.check_action_token_at(now_s, token, validity_s)
    }
}

/// A position in a paginated query: where it stands, and the fingerprint of
/// the query it belongs to.
#[derive(Debug)]
pub struct Cursor {
    pub position: CursorPosition,
    pub query_fingerprint: Vec<u8>,
}

impl Cursor {
    /// The cursor's content: its position (`None` at the end) and fingerprint.
    pub open spec fn content(&self) -> (Option<Seq<u8>>, Seq<u8>) {
        (position_view(self.position), self.query_fingerprint@)
    }
}

/// What a query has read: the cursor it ended at, if any.
#[derive(Debug)]
pub struct QueryJournal {
    pub end_cursor: Option<Cursor>,
}

impl QueryJournal {
    pub fn new() -> (r: QueryJournal)
        ensures
            r.end_cursor is None,
    {
        QueryJournal { end_cursor: None }
    }
}

/// The persistence format a cursor belongs to.
#[derive(Debug, Clone, Copy, PartialEq, Eq, Structural)]
pub enum PersistenceVersion {
    V5,
}

impl PersistenceVersion {
    pub fn default_version() -> (r: PersistenceVersion) {
        PersistenceVersion::V5
    }

    /// The version byte of index keys under this format: the base version.
    pub fn index_key_version(&self, base: u8) -> (r: u8)
        ensures
            r == base,
    {
        base
    }
}

fn copy_position(p: &CursorPosition) -> (r: CursorPosition)
    ensures
        position_view(r) == position_view(*p),
{
    match p {
        CursorPosition::End => CursorPosition::End,
        CursorPosition::After(k) => CursorPosition::After(copy_bytes(k)),
    }
}

proof fn lemma_cursor_payload_fits(v: CursorView)
    requires
        cursor_fits(v),
    ensures
        cursor_payload(v).len() <= MAX_PLAINTEXT_LEN,
        fields_fit(cursor_fields(v)),
{
    let fs = cursor_fields(v);
    assert(fields_fit(fs)) by {
        assert forall|i: int| 0 <= i < fs.len() implies (#[trigger] fs[i]).len() <= u32::MAX by {
            if i == 1 {
                assert(position_field(v.position).len() <= u32::MAX);
            }
        }
    }
    lemma_frame_len_bound(fs);
}

proof fn lemma_journal_payload_fits(c: Option<CursorView>)
    requires
        journal_fits(c),
    ensures
        journal_payload(c).len() <= MAX_PLAINTEXT_LEN,
{
    let f = match c {
        None => Seq::<u8>::empty(),
        Some(v) => seq![1u8] + cursor_payload(v),
    };
    assert(fields_fit(seq![f]));
    lemma_frame_len_bound(seq![f]);
}

impl KeyBroker {
    /// The payload content of this instance's cursor at `position` for `fingerprint`.
    pub open spec fn cursor_view(&self, content: (Option<Seq<u8>>, Seq<u8>)) -> CursorView {
        CursorView {
            instance_name: self.name_bytes(),
            position: Some(content.0),
            query_fingerprint: content.1,
        }
    }

    /// Whether a cursor's fields fit the token format.
    pub open spec fn cursor_fits_format(&self, c: Cursor) -> bool {
        cursor_fits(self.cursor_view(c.content()))
    }

    fn cursor_to_proto(&self, cursor: &Cursor) -> (r: CursorProto)
        ensures
            r@ == self.cursor_view(cursor.content()),
    {
        let name = self.instance_name.as_str().as_bytes();
        assert(name@.subrange(0, name@.len() as int) =~= name@);
        CursorProto {
            instance_name: copy_range(name, 0, name.len()),
            position: Some(copy_position(&cursor.position)),
            query_fingerprint: copy_bytes(&cursor.query_fingerprint),
        }
    }

    /// What reading a cursor payload yields.
    pub open spec fn cursor_check_is(&self, payload: Option<CursorView>, r: Result<Cursor, KeyBrokerError>) -> bool {
        match payload {
            None => r == Err::<Cursor, KeyBrokerError>(KeyBrokerError::InvalidCursor),
            Some(v) => if v.instance_name != self.name_bytes() || v.position is None {
                r == Err::<Cursor, KeyBrokerError>(KeyBrokerError::InvalidCursor)
            } else {
                r matches Ok(c) && c.content() == (v.position->0, v.query_fingerprint)
            },
        }
    }

    fn proto_to_cursor(&self, proto: CursorProto) -> (r: Result<Cursor, KeyBrokerError>)
        ensures
            self.cursor_check_is(Some(proto@), r),
    {
        if !bytes_equal(proto.instance_name.as_slice(), self.instance_name.as_str().as_bytes()) {
            return Err(KeyBrokerError::InvalidCursor);
        }
        match proto.position {
            Some(position) => Ok(Cursor { position, query_fingerprint: proto.query_fingerprint }),
            None => Err(KeyBrokerError::InvalidCursor),
        }
    }

    /// Seals a cursor for sending to clients.
    pub fn encrypt_cursor(&self, cursor: &Cursor, persistence_version: PersistenceVersion) -> (r: String)
        requires
            self.wf(),
            self.cursor_fits_format(*cursor),
        ensures
            exists|nonce: Seq<u8>|
                nonce.len() == NONCE_LEN && encode_utf8(r@) == token_text(
                    self.secret(),
                    CURSOR_VERSION,
                    nonce,
                    cursor_payload(self.cursor_view(cursor.content())),
                ),
    {
        let proto = self.cursor_to_proto(cursor);
        proof {
            lemma_cursor_payload_fits(proto@);
        }
        let version = persistence_version.index_key_version(CURSOR_VERSION);
        let payload = proto.encode();
        ascii_string(self.encryptor.encode(version, &payload))
    }

    /// Opens a cursor sealed by `encrypt_cursor`.
    pub fn decrypt_cursor(&self, cursor: &str, persistence_version: PersistenceVersion) -> (r: Result<
        Cursor,
        KeyBrokerError,
    >)
        requires
            self.wf(),
        ensures
            forall|nonce: Seq<u8>, v: CursorView|
                nonce.len() == NONCE_LEN && cursor_fits(v) && encode_utf8(cursor@) == #[trigger] token_text(
                    self.secret(),
                    CURSOR_VERSION,
                    nonce,
                    cursor_payload(v),
                ) ==> self.cursor_check_is(Some(v), r),
            malformed_token(encode_utf8(cursor@), CURSOR_VERSION) ==> r == Err::<Cursor, KeyBrokerError>(
                KeyBrokerError::InvalidCursor,
            ),
    {
        let version = persistence_version.index_key_version(CURSOR_VERSION);
        let payload = self.encryptor.decode(version, cursor.as_bytes());
        proof {
            assert forall|nonce: Seq<u8>, v: CursorView|
                nonce.len() == NONCE_LEN && cursor_fits(v) && encode_utf8(cursor@) == #[trigger] token_text(
                    self.secret(),
                    CURSOR_VERSION,
                    nonce,
                    cursor_payload(v),
                ) implies payload matches Some(p) && p@ == cursor_payload(v) by {
                lemma_cursor_payload_fits(v);
            }
        }
        let bytes = match payload {
            Some(p) => p,
            None => {
                return Err(cursor_parse_error());
            },
        };
        match CursorProto::decode(bytes.as_slice()) {
            Some(proto) => self.proto_to_cursor(proto),
            None => Err(cursor_parse_error()),
        }
    }

    /// Seals a query journal; an empty journal is `None`.
    pub fn encrypt_query_journal(&self, journal: &QueryJournal, persistence_version: PersistenceVersion) -> (r:
        Option<String>)
        requires
            self.wf(),
            journal.end_cursor matches Some(c) ==> journal_fits(Some(self.cursor_view(c.content()))),
        ensures
            journal.end_cursor is None ==> r is None,
            journal.end_cursor matches Some(c) ==> (r matches Some(t) && exists|nonce: Seq<u8>|
                nonce.len() == NONCE_LEN && encode_utf8(t@) == token_text(
                    self.secret(),
                    QUERY_JOURNAL_VERSION,
                    nonce,
                    journal_payload(Some(self.cursor_view(c.content()))),
                )),
    {
        let version = persistence_version.index_key_version(QUERY_JOURNAL_VERSION);
        let cursor = match &journal.end_cursor {
            Some(c) => self.cursor_to_proto(c),
            None => {
                return None;
            },
        };
        let proto = QueryJournalProto { end_cursor: Some(cursor) };
        proof {
            lemma_journal_payload_fits(proto.cursor_view());
        }
        let payload = proto.encode();
        Some(ascii_string(self.encryptor.encode(version, &payload)))
    }

    /// What reading a query journal payload yields.
    pub open spec fn journal_check_is(
        &self,
        payload: Option<Option<CursorView>>,
        r: Result<QueryJournal, KeyBrokerError>,
    ) -> bool {
        match payload {
            None => r == Err::<QueryJournal, KeyBrokerError>(KeyBrokerError::InvalidCursor),
            Some(None) => r matches Ok(j) && j.end_cursor is None,
            Some(Some(v)) => if v.instance_name != self.name_bytes() || v.position is None {
                r == Err::<QueryJournal, KeyBrokerError>(KeyBrokerError::InvalidCursor)
            } else {
                r matches Ok(j) && j.end_cursor matches Some(c) && c.content() == (
                    v.position->0,
                    v.query_fingerprint,
                )
            },
        }
    }

    /// Opens a query journal sealed by `encrypt_query_journal`; `None` is the
    /// empty journal.
    pub fn decrypt_query_journal(
        &self,
        journal: Option<String>,
        persistence_version: PersistenceVersion,
    ) -> (r: Result<QueryJournal, KeyBrokerError>)
        requires
            self.wf(),
        ensures
            journal is None ==> (r matches Ok(j) && j.end_cursor is None),
            forall|nonce: Seq<u8>, c: Option<CursorView>|
                nonce.len() == NONCE_LEN && journal_fits(c) && (journal matches Some(t) && encode_utf8(t@)
                    == #[trigger] token_text(self.secret(), QUERY_JOURNAL_VERSION, nonce, journal_payload(c)))
                    ==> self.journal_check_is(Some(c), r),
            (journal matches Some(t) && malformed_token(encode_utf8(t@), QUERY_JOURNAL_VERSION)) ==> r
                == Err::<QueryJournal, KeyBrokerError>(KeyBrokerError::InvalidCursor),
    {
        let version = persistence_version.index_key_version(QUERY_JOURNAL_VERSION);
        let text = match journal {
            None => {
                return Ok(QueryJournal::new());
            },
            Some(t) => t,
        };
        let payload = self.encryptor.decode(version, text.as_str().as_bytes());
        proof {
            assert forall|nonce: Seq<u8>, c: Option<CursorView>|
                nonce.len() == NONCE_LEN && journal_fits(c) && encode_utf8(text@) == #[trigger] token_text(
                    self.secret(),
                    QUERY_JOURNAL_VERSION,
                    nonce,
                    journal_payload(c),
                ) implies payload matches Some(p) && p@ == journal_payload(c) by {
                lemma_journal_payload_fits(c);
            }
        }
        let bytes = match payload {
            Some(p) => p,
            None => {
                return Err(KeyBrokerError::InvalidCursor);
            },
        };
        let proto = match QueryJournalProto::decode(bytes.as_slice()) {
            Some(p) => p,
            None => {
                return Err(KeyBrokerError::InvalidCursor);
            },
        };
        match proto.end_cursor {
            None => Ok(QueryJournal::new()),
            Some(c) => match self.proto_to_cursor(c) {
                Ok(cursor) => Ok(QueryJournal { end_cursor: Some(cursor) }),
                Err(e) => Err(e),
            },
        }
    }
}

fn opt_string_equal(a: &Option<String>, b: &Option<String>) -> (r: bool)
    ensures
        r == (opt_string_view(*a) == opt_string_view(*b)),
{
    match (a, b) {
        (Some(x), Some(y)) => *x == *y,
        (None, None) => true,
        _ => false,
    }
}

/// The view of an optional string.
pub open spec fn opt_string_view(o: Option<String>) -> Option<Seq<char>> {
    match o {
        Some(s) => Some(s@),
        None => None,
    }
}

impl UserIdentityAttributes {
    /// Whether two sets of attributes are equal, field by field.
    pub open spec fn same_attributes(&self, other: &UserIdentityAttributes) -> bool {
        &&& self.token_identifier@ == other.token_identifier@
        &&& opt_string_view(self.subject) == opt_string_view(other.subject)
        &&& opt_string_view(self.issuer) == opt_string_view(other.issuer)
        &&& opt_string_view(self.name) == opt_string_view(other.name)
        &&& opt_string_view(self.email) == opt_string_view(other.email)
    }

    pub fn equals(&self, other: &UserIdentityAttributes) -> (r: bool)
        ensures
            r == self.same_attributes(other),
    {
        self.token_identifier == other.token_identifier && opt_string_equal(&self.subject, &other.subject)
            && opt_string_equal(&self.issuer, &other.issuer) && opt_string_equal(&self.name, &other.name)
            && opt_string_equal(&self.email, &other.email)
    }
}

impl Identity {
    /// Identities are equal when they are the same admin, the system, users
    /// with the same token identifier, the same admin acting as the same
    /// user, or both unknown.
    pub open spec fn same_identity(&self, other: &Identity) -> bool {
        match (self, other) {
            (Identity::InstanceAdmin(l), Identity::InstanceAdmin(r)) => l.instance() == r.instance()
                && l.member() == r.member() && l.key_text() == r.key_text(),
            (Identity::System(_), Identity::System(_)) => true,
            (Identity::User(l), Identity::User(r)) => l.attributes.token_identifier@
                == r.attributes.token_identifier@,
            (Identity::Unknown, Identity::Unknown) => true,
            (Identity::ActingUser(la, lu), Identity::ActingUser(ra, ru)) => la.instance() == ra.instance()
                && la.member() == ra.member() && la.key_text() == ra.key_text() && lu.same_attributes(ru),
            _ => false,
        }
    }

    pub fn equals(&self, other: &Identity) -> (r: bool)
        ensures
            r == self.same_identity(other),
    {
        match (self, other) {
            (Identity::InstanceAdmin(l), Identity::InstanceAdmin(r)) => l.same_as(r),
            (Identity::System(_), Identity::System(_)) => true,
            (Identity::User(l), Identity::User(r)) => l.attributes.token_identifier
                == r.attributes.token_identifier,
            (Identity::Unknown, Identity::Unknown) => true,
            (Identity::ActingUser(la, lu), Identity::ActingUser(ra, ru)) => la.same_as(ra) && lu.equals(ru),
            _ => false,
        }
    }

    /// The global system identity.
    pub fn system() -> (r: Identity)
        ensures
            r is System,
    {
        Identity::System(SystemIdentity)
    }

    /// The identity of an authenticated user.
    pub fn user(user: UserIdentity) -> (r: Identity)
        ensures
            r == Identity::User(user),
    {
        Identity::User(user)
    }

    pub fn is_system(&self) -> (r: bool)
        ensures
            r == self is System,
    {
        matches!(self, Identity::System(..))
    }

    pub fn is_admin(&self) -> (r: bool)
        ensures
            r == self is InstanceAdmin,
    {
        matches!(self, Identity::InstanceAdmin(..))
    }

    pub fn is_user(&self) -> (r: bool)
        ensures
            r == self is User,
    {
        matches!(self, Identity::User(..))
    }

    /// The admin's member ID, if this is an instance admin.
    pub fn member_id(&self) -> (r: Option<MemberId>)
        ensures
            match self {
                Identity::InstanceAdmin(a) => r == Some(a.member()),
                _ => r is None,
            },
    {
        match self {
            Identity::InstanceAdmin(a) => Some(a.member_id),
            _ => None,
        }
    }

    /// The admin's instance name, if this is an instance admin.
    pub fn instance_name(&self) -> (r: Option<String>)
        ensures
            match self {
                Identity::InstanceAdmin(a) => r matches Some(n) && n@ == a.instance(),
                _ => r is None,
            },
    {
        match self {
            Identity::InstanceAdmin(a) => Some(a.instance_name.clone()),
            _ => None,
        }
    }

    /// The user, if this is a user.
    pub fn user_identity(&self) -> (r: Option<&UserIdentity>)
        ensures
            match self {
                Identity::User(u) => r == Some(u),
                _ => r is None,
            },
    {
        match self {
            Identity::User(u) => Some(u),
            _ => None,
        }
    }

    /// Fails when the request carries no credentials.
    pub fn assert_present(&self) -> (r: Result<(), KeyBrokerError>)
        ensures
            self is Unknown ==> r == Err::<(), KeyBrokerError>(KeyBrokerError::AuthorizationMissing),
            !(self is Unknown) ==> r is Ok,
    {
        if matches!(self, Identity::Unknown) {
            Err(KeyBrokerError::AuthorizationMissing)
        } else {
            Ok(())
        }
    }
}

/// A cursor the broker seals opens back to a cursor with the same position
/// and fingerprint: what opening yields on the cursor's own payload.
pub proof fn lemma_cursor_round_trip(kb: KeyBroker, c: Cursor, r: Result<Cursor, KeyBrokerError>)
    requires
        kb.cursor_check_is(Some(kb.cursor_view(c.content())), r),
    ensures
        r matches Ok(d) && d.content() == c.content(),
{
}

/// A query journal the broker seals opens back to a journal whose end cursor
/// has the same position and fingerprint.
pub proof fn lemma_journal_round_trip(kb: KeyBroker, c: Cursor, r: Result<QueryJournal, KeyBrokerError>)
    requires
        kb.journal_check_is(Some(Some(kb.cursor_view(c.content()))), r),
    ensures
        r matches Ok(j) && j.end_cursor matches Some(d) && d.content() == c.content(),
{
}

/// An action token issued at a nonzero time opens back to that time while
/// it is valid.
pub proof fn lemma_action_token_round_trip(
    now_s: u64,
    validity_s: u64,
    issued_s: u64,
    r: Result<u64, KeyBrokerError>,
)
    requires
        KeyBroker::action_check_is(now_s, validity_s, Some(issued_s), r),
        issued_s != 0,
        issued_s + validity_s > now_s,
    ensures
        r == Ok::<u64, KeyBrokerError>(issued_s),
{
}

/// The serialized form of an admin identity; every field is optional.
pub struct AdminIdentityProto {
    pub instance_name: Option<String>,
    pub member_id: Option<u64>,
    pub key: Option<String>,
}

/// The serialized form of user attributes.
pub struct UserIdentityAttributesProto {
    pub token_identifier: Option<String>,
    pub subject: Option<String>,
    pub issuer: Option<String>,
    pub name: Option<String>,
    pub email: Option<String>,
}

/// The serialized form of a user identity.
pub struct UserIdentityProto {
    pub subject: Option<String>,
    pub issuer: Option<String>,
    pub expiration_s: Option<u64>,
    pub attributes: Option<UserIdentityAttributesProto>,
    pub original_token: Option<String>,
}

/// The serialized form of an admin acting as a user.
pub struct ActingUserProto {
    pub admin_identity: Option<AdminIdentityProto>,
    pub attributes: Option<UserIdentityAttributesProto>,
}

/// The variants of a serialized identity.
pub enum IdentityProtoKind {
    AdminIdentity(AdminIdentityProto),
    System,
    UserIdentity(UserIdentityProto),
    ActingUser(ActingUserProto),
    Unknown,
}

/// The serialized form of an identity.
pub struct IdentityProto {
    pub identity: Option<IdentityProtoKind>,
}

fn take_string(o: Option<String>) -> (r: Result<String, KeyBrokerError>)
    ensures
        match o {
            Some(s) => r matches Ok(t) && t@ == s@,
            None => r == Err::<String, KeyBrokerError>(KeyBrokerError::MissingIdentityField),
        },
{
    match o {
        Some(s) => Ok(s),
        None => Err(KeyBrokerError::MissingIdentityField),
    }
}

fn string_copy(s: &String) -> (r: String)
    ensures
        r@ == s@,
{
    s.clone()
}

fn opt_string_copy(o: &Option<String>) -> (r: Option<String>)
    ensures
        opt_string_view(r) == opt_string_view(*o),
{
    match o {
        Some(s) => Some(s.clone()),
        None => None,
    }
}

impl AdminIdentityProto {
    /// Whether this serializes `a`.
    pub open spec fn carries(&self, a: AdminIdentity) -> bool {
        &&& self.instance_name matches Some(n) && n@ == a.instance()
        &&& self.member_id == Some(a.member().0)
        &&& self.key matches Some(k) && k@ == a.key_text()
    }
}

impl UserIdentityAttributesProto {
    pub open spec fn carries(&self, a: UserIdentityAttributes) -> bool {
        &&& self.token_identifier matches Some(t) && t@ == a.token_identifier@
        &&& opt_string_view(self.subject) == opt_string_view(a.subject)
        &&& opt_string_view(self.issuer) == opt_string_view(a.issuer)
        &&& opt_string_view(self.name) == opt_string_view(a.name)
        &&& opt_string_view(self.email) == opt_string_view(a.email)
    }
}

impl UserIdentityProto {
    pub open spec fn carries(&self, u: UserIdentity) -> bool {
        &&& self.subject matches Some(s) && s@ == u.subject@
        &&& self.issuer matches Some(i) && i@ == u.issuer@
        &&& self.expiration_s == Some(u.expiration_s)
        &&& self.attributes matches Some(a) && a.carries(u.attributes)
        &&& self.original_token matches Some(t) && t@ == u.original_token@
    }
}

impl AdminIdentity {
    pub fn to_proto(&self) -> (r: AdminIdentityProto)
        ensures
            r.carries(*self),
    {
        AdminIdentityProto {
            instance_name: Some(string_copy(&self.instance_name)),
            member_id: Some(self.member_id.0),
            key: Some(string_copy(&self.key)),
        }
    }

    /// Reads a serialized admin identity without checking its key; fails
    /// exactly when a field is missing.
    pub fn from_proto_unchecked(msg: AdminIdentityProto) -> (r: Result<AdminIdentity, KeyBrokerError>)
        ensures
            (msg.instance_name is Some && msg.member_id is Some && msg.key is Some) <==> r is Ok,
            r is Err ==> r == Err::<AdminIdentity, KeyBrokerError>(KeyBrokerError::MissingIdentityField),
            r matches Ok(a) ==> msg.carries(a),
    {
        let instance_name = take_string(msg.instance_name)?;
        let member_id = match msg.member_id {
            Some(m) => m,
            None => {
                return Err(KeyBrokerError::MissingIdentityField);
            },
        };
        let key = take_string(msg.key)?;
        Ok(AdminIdentity { instance_name, member_id: MemberId(member_id), key })
    }
}

impl UserIdentityAttributes {
    pub fn to_proto(&self) -> (r: UserIdentityAttributesProto)
        ensures
            r.carries(*self),
    {
        UserIdentityAttributesProto {
            token_identifier: Some(string_copy(&self.token_identifier)),
            subject: opt_string_copy(&self.subject),
            issuer: opt_string_copy(&self.issuer),
            name: opt_string_copy(&self.name),
            email: opt_string_copy(&self.email),
        }
    }

    /// Reads serialized attributes; fails exactly when the token identifier is missing.
    pub fn from_proto(msg: UserIdentityAttributesProto) -> (r: Result<UserIdentityAttributes, KeyBrokerError>)
        ensures
            msg.token_identifier is Some <==> r is Ok,
            r is Err ==> r == Err::<UserIdentityAttributes, KeyBrokerError>(
                KeyBrokerError::MissingIdentityField,
            ),
            r matches Ok(a) ==> msg.carries(a),
    {
        let token_identifier = take_string(msg.token_identifier)?;
        Ok(
            UserIdentityAttributes {
                token_identifier,
                subject: msg.subject,
                issuer: msg.issuer,
                name: msg.name,
                email: msg.email,
            },
        )
    }
}

impl UserIdentity {
    pub fn to_proto(&self) -> (r: UserIdentityProto)
        ensures
            r.carries(*self),
    {
        UserIdentityProto {
            subject: Some(string_copy(&self.subject)),
            issuer: Some(string_copy(&self.issuer)),
            expiration_s: Some(self.expiration_s),
            attributes: Some(self.attributes.to_proto()),
            original_token: Some(string_copy(&self.original_token)),
        }
    }

    /// Reads a serialized user identity without revalidating its token; fails
    /// exactly when a field is missing.
    pub fn from_proto_unchecked(msg: UserIdentityProto) -> (r: Result<UserIdentity, KeyBrokerError>)
        ensures
            (msg.subject is Some && msg.issuer is Some && msg.expiration_s is Some && (msg.attributes matches Some(
                a,
            ) && a.token_identifier is Some) && msg.original_token is Some) <==> r is Ok,
            r is Err ==> r == Err::<UserIdentity, KeyBrokerError>(KeyBrokerError::MissingIdentityField),
            r matches Ok(u) ==> msg.carries(u),
    {
        let subject = take_string(msg.subject)?;
        let issuer = take_string(msg.issuer)?;
        let expiration_s = match msg.expiration_s {
            Some(e) => e,
            None => {
                return Err(KeyBrokerError::MissingIdentityField);
            },
        };
        let attributes = match msg.attributes {
            Some(a) => UserIdentityAttributes::from_proto(a)?,
            None => {
                return Err(KeyBrokerError::MissingIdentityField);
            },
        };
        let original_token = take_string(msg.original_token)?;
        Ok(UserIdentity { subject, issuer, expiration_s, attributes, original_token })
    }
}

impl IdentityProto {
    /// Whether this serializes `i`.
    pub open spec fn carries(&self, i: Identity) -> bool {
        match (self.identity, i) {
            (Some(IdentityProtoKind::AdminIdentity(p)), Identity::InstanceAdmin(a)) => p.carries(a),
            (Some(IdentityProtoKind::System), Identity::System(_)) => true,
            (Some(IdentityProtoKind::UserIdentity(p)), Identity::User(u)) => p.carries(u),
            (Some(IdentityProtoKind::ActingUser(p)), Identity::ActingUser(a, u)) => (p.admin_identity matches Some(
                pa,
            ) && pa.carries(a)) && (p.attributes matches Some(pu) && pu.carries(u)),
            (Some(IdentityProtoKind::Unknown), Identity::Unknown) => true,
            _ => false,
        }
    }
}

impl Identity {
    pub fn to_proto(&self) -> (r: IdentityProto)
        ensures
            r.carries(*self),
    {
        let kind = match self {
            Identity::InstanceAdmin(a) => IdentityProtoKind::AdminIdentity(a.to_proto()),
            Identity::System(_) => IdentityProtoKind::System,
            Identity::User(u) => IdentityProtoKind::UserIdentity(u.to_proto()),
            Identity::ActingUser(a, u) => IdentityProtoKind::ActingUser(
                ActingUserProto { admin_identity: Some(a.to_proto()), attributes: Some(u.to_proto()) },
            ),
            Identity::Unknown => IdentityProtoKind::Unknown,
        };
        IdentityProto { identity: Some(kind) }
    }

    /// Reads a serialized identity without revalidating it: it must come from
    /// a trusted source. Fails when a field is missing.
    pub fn from_proto_unchecked(msg: IdentityProto) -> (r: Result<Identity, KeyBrokerError>)
        ensures
            msg.identity is None ==> r == Err::<Identity, KeyBrokerError>(
                KeyBrokerError::MissingNestedIdentity,
            ),
            msg.identity is Some && r is Err ==> r == Err::<Identity, KeyBrokerError>(
                KeyBrokerError::MissingIdentityField,
            ),
            r matches Ok(i) ==> msg.carries(i),
            (exists|i: Identity| msg.carries(i)) ==> r is Ok,
    {
        let kind = match msg.identity {
            Some(k) => k,
            None => {
                return Err(KeyBrokerError::MissingNestedIdentity);
            },
        };
        match kind {
            IdentityProtoKind::AdminIdentity(a) => Ok(Identity::InstanceAdmin(AdminIdentity::from_proto_unchecked(a)?)),
            IdentityProtoKind::System => Ok(Identity::System(SystemIdentity)),
            IdentityProtoKind::UserIdentity(u) => Ok(Identity::User(UserIdentity::from_proto_unchecked(u)?)),
            IdentityProtoKind::ActingUser(ActingUserProto { admin_identity, attributes }) => {
                let admin = match admin_identity {
                    Some(a) => AdminIdentity::from_proto_unchecked(a)?,
                    None => {
                        return Err(KeyBrokerError::MissingIdentityField);
                    },
                };
                let attributes = match attributes {
                    Some(u) => UserIdentityAttributes::from_proto(u)?,
                    None => {
                        return Err(KeyBrokerError::MissingIdentityField);
                    },
                };
                Ok(Identity::ActingUser(admin, attributes))
            },
            IdentityProtoKind::Unknown => Ok(Identity::Unknown),
        }
    }
}

/// Serializing an identity and reading it back gives an equal identity:
/// whatever a reader makes of an identity's serialized form is that identity.
pub proof fn lemma_identity_proto_round_trip(i: Identity, p: IdentityProto, back: Identity)
    requires
        p.carries(i),
        p.carries(back),
    ensures
        back.same_identity(&i),
{
}

impl PartialEq for Identity {
    fn eq(&self, other: &Identity) -> (r: bool) {
        self.equals(other)
    }
}

impl vstd::std_specs::cmp::PartialEqSpecImpl for Identity {
    open spec fn obeys_eq_spec() -> bool {
        true
    }

    open spec fn eq_spec(&self, other: &Identity) -> bool {
        self.same_identity(other)
    }
}

fn copy_attributes(a: &UserIdentityAttributes) -> (r: UserIdentityAttributes)
    ensures
        r.same_attributes(a),
{
    UserIdentityAttributes {
        token_identifier: string_copy(&a.token_identifier),
        subject: opt_string_copy(&a.subject),
        issuer: opt_string_copy(&a.issuer),
        name: opt_string_copy(&a.name),
        email: opt_string_copy(&a.email),
    }
}

/// The key under which results computed for an identity are cached.
#[derive(Debug)]
pub enum IdentityCacheKey {
    InstanceAdmin(String),
    System,
    Unknown,
    User(UserIdentityAttributes),
    ActingUser(MemberId, UserIdentityAttributes),
}

/// What an identity records once its authentication is no longer held.
#[derive(Debug)]
pub enum InertIdentity {
    InstanceAdmin(String),
    System,
    Unknown,
    User(String),
    ActingUser(MemberId, String),
}

/// The credentials that stand for an identity in a request.
#[derive(Debug)]
pub enum AuthenticationToken {
    Admin(String, Option<UserIdentityAttributes>),
    User(String),
    Absent,
}

impl Identity {
    /// The cache key of the identity: the instance of an admin, the
    /// attributes of a user, the member and attributes of an acting user.
    pub fn cache_key(&self) -> (r: IdentityCacheKey)
        ensures
            match (self, r) {
                (Identity::InstanceAdmin(a), IdentityCacheKey::InstanceAdmin(n)) => n@ == a.instance(),
                (Identity::System(_), IdentityCacheKey::System) => true,
                (Identity::Unknown, IdentityCacheKey::Unknown) => true,
                (Identity::User(u), IdentityCacheKey::User(k)) => k.same_attributes(&u.attributes),
                (Identity::ActingUser(a, u), IdentityCacheKey::ActingUser(m, k)) => m == a.member()
                    && k.same_attributes(u),
                _ => false,
            },
    {
        match self {
            Identity::InstanceAdmin(a) => IdentityCacheKey::InstanceAdmin(string_copy(&a.instance_name)),
            Identity::System(_) => IdentityCacheKey::System,
            Identity::Unknown => IdentityCacheKey::Unknown,
            Identity::User(u) => IdentityCacheKey::User(copy_attributes(&u.attributes)),
            Identity::ActingUser(a, u) => IdentityCacheKey::ActingUser(a.member_id, copy_attributes(u)),
        }
    }

    /// The inert record of the identity.
    pub fn into_inert(self) -> (r: InertIdentity)
        ensures
            match (self, r) {
                (Identity::InstanceAdmin(a), InertIdentity::InstanceAdmin(n)) => n@ == a.instance(),
                (Identity::System(_), InertIdentity::System) => true,
                (Identity::Unknown, InertIdentity::Unknown) => true,
                (Identity::User(u), InertIdentity::User(t)) => t@ == u.attributes.token_identifier@,
                (Identity::ActingUser(a, u), InertIdentity::ActingUser(m, t)) => m == a.member() && t@
                    == u.token_identifier@,
                _ => false,
            },
    {
        match self {
            Identity::InstanceAdmin(a) => InertIdentity::InstanceAdmin(a.instance_name),
            Identity::System(_) => InertIdentity::System,
            Identity::Unknown => InertIdentity::Unknown,
            Identity::User(u) => InertIdentity::User(u.attributes.token_identifier),
            Identity::ActingUser(a, u) => InertIdentity::ActingUser(a.member_id, u.token_identifier),
        }
    }

    /// The credentials that stand for the identity: an admin's key (with the
    /// attributes it acts under), a user's token, or none.
    pub fn into_authentication_token(self) -> (r: AuthenticationToken)
        ensures
            match (self, r) {
                (Identity::InstanceAdmin(a), AuthenticationToken::Admin(k, None)) => k@ == a.key_text(),
                (Identity::ActingUser(a, u), AuthenticationToken::Admin(k, Some(v))) => k@ == a.key_text()
                    && v.same_attributes(&u),
                (Identity::User(u), AuthenticationToken::User(t)) => t@ == u.original_token@,
                (Identity::System(_), AuthenticationToken::Absent) => true,
                (Identity::Unknown, AuthenticationToken::Absent) => true,
                _ => false,
            },
    {
        match self {
            Identity::User(u) => AuthenticationToken::User(u.original_token),
            Identity::ActingUser(a, u) => {
                let v = copy_attributes(&u);
                AuthenticationToken::Admin(a.key, Some(v))
            },
            Identity::InstanceAdmin(a) => AuthenticationToken::Admin(a.key, None),
            _ => AuthenticationToken::Absent,
        }
    }
}

} // verus!
