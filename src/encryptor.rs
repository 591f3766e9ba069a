//! Sealing token payloads under the instance secret: AES-256-GCM from the
//! aes-gcm crate, written out as hexadecimal text behind a version byte.
use vstd::prelude::*;
use vstd::utf8::{encode_utf8, valid_utf8};
use aes_gcm::aead::{Aead, AeadCore, KeyInit, OsRng};
use aes_gcm::{Aes256Gcm, Nonce};
use crate::codec::{from_hex, hex_bytes, to_hex, unhex};

verus! {

/// Length of the instance secret, the AES-256 key.
pub const SECRET_LEN: usize = 32;

/// Length of an AES-GCM nonce.
pub const NONCE_LEN: usize = 12;

/// The longest plaintext AES-GCM seals.
pub const MAX_PLAINTEXT_LEN: u64 = 68719476736;

/// What AES-256-GCM makes of a plaintext under a key and a nonce.
pub uninterp spec fn sealed(key: Seq<u8>, nonce: Seq<u8>, plaintext: Seq<u8>) -> Seq<u8>;

/// Relies on aes-gcm's `Aes256Gcm::encrypt`: under a 32-byte key and a
/// 12-byte nonce it seals any plaintext of at most 2^36 bytes, and the result
/// depends on the key, the nonce and the plaintext alone.
#[verifier::external_body]
fn seal(key: &[u8], nonce: &[u8], plaintext: &[u8]) -> (r: Vec<u8>)
    requires
        key@.len() == SECRET_LEN,
        nonce@.len() == NONCE_LEN,
        plaintext@.len() <= MAX_PLAINTEXT_LEN,
    ensures
        r@ == sealed(key@, nonce@, plaintext@),
{
    match Aes256Gcm::new_from_slice(key) {
        Ok(cipher) => cipher.encrypt(Nonce::from_slice(nonce), plaintext).unwrap_or_default(),
        Err(_) => Vec::new(),
    }
}

/// Whether `r` holds the plaintext `p`.
pub open spec fn opened_to(r: Option<Vec<u8>>, p: Seq<u8>) -> bool {
    r matches Some(v) && v@ == p
}

/// Relies on aes-gcm's `Aes256Gcm::decrypt`: what was sealed under a key and
/// a nonce opens under them to the plaintext.
#[verifier::external_body]
fn open(key: &[u8], nonce: &[u8], ciphertext: &[u8]) -> (r: Option<Vec<u8>>)
    requires
        key@.len() == SECRET_LEN,
        nonce@.len() == NONCE_LEN,
    ensures
        forall|p: Seq<u8>| #![trigger sealed(key@, nonce@, p)]
            p.len() <= MAX_PLAINTEXT_LEN && ciphertext@ == sealed(key@, nonce@, p) ==> opened_to(r, p),
{
    match Aes256Gcm::new_from_slice(key) {
        Ok(cipher) => cipher.decrypt(Nonce::from_slice(nonce), ciphertext).ok(),
        Err(_) => None,
    }
}

/// Relies on aes-gcm's `generate_nonce` over the operating system's random
/// source: twelve bytes.
#[verifier::external_body]
pub(crate) fn fresh_nonce() -> (r: Vec<u8>)
    ensures
        r@.len() == NONCE_LEN,
{
    Aes256Gcm::generate_nonce(&mut OsRng).to_vec()
}

/// Relies on `String::from_utf8`: valid UTF-8 becomes the string holding
/// exactly those bytes; anything else is refused.
#[verifier::external_body]
pub(crate) fn string_from_utf8(bytes: Vec<u8>) -> (r: Option<String>)
    ensures
        r is Some <==> valid_utf8(bytes@),
        r matches Some(s) ==> encode_utf8(s@) == bytes@,
{
    String::from_utf8(bytes).ok()
}

/// The text of a token: hexadecimal of the version byte, the nonce and the
/// sealed payload.
pub open spec fn token_text(key: Seq<u8>, version: u8, nonce: Seq<u8>, payload: Seq<u8>) -> Seq<u8> {
    hex_bytes(seq![version] + nonce + sealed(key, nonce, payload))
}

/// Whether a token text cannot be one of version `version`: it is not
/// hexadecimal, is too short to hold a nonce, or has another version byte.
pub open spec fn malformed_token(text: Seq<u8>, version: u8) -> bool {
    !(unhex(text) matches Some(raw) && raw.len() >= 1 + NONCE_LEN && raw[0] == version)
}

/// Seals token payloads under the instance secret.
pub struct Encryptor {
    key: Vec<u8>,
}

impl View for Encryptor {
    type V = Seq<u8>;

    closed spec fn view(&self) -> Seq<u8> {
        self.key@
    }
}

impl Encryptor {
    pub closed spec fn wf(&self) -> bool {
        self.key@.len() == SECRET_LEN
    }

    /// An encryptor for a secret of `SECRET_LEN` bytes; other secrets are refused.
    pub fn new(secret: &Vec<u8>) -> (r: Option<Encryptor>)
        ensures
            r is Some <==> secret@.len() == SECRET_LEN,
            r matches Some(e) ==> e.wf() && e@ == secret@,
    {
        if secret.len() == SECRET_LEN {
            Some(Encryptor { key: crate::terms::copy_bytes(secret) })
        } else {
            None
        }
    }

    /// The token text of `payload` sealed with `nonce`.
    pub fn encode_with_nonce(&self, version: u8, nonce: &Vec<u8>, payload: &Vec<u8>) -> (r: Vec<u8>)
        requires
            self.wf(),
            nonce@.len() == NONCE_LEN,
            payload@.len() <= MAX_PLAINTEXT_LEN,
        ensures
            r@ == token_text(self@, version, nonce@, payload@),
            forall|i: int| 0 <= i < r@.len() ==> #[trigger] r@[i] < 128,
    {
        let ct = seal(self.key.as_slice(), nonce.as_slice(), payload.as_slice());
        let mut raw: Vec<u8> = vec![version];
        let mut i: usize = 0;
        while i < nonce.len()
            invariant
                0 <= i <= nonce@.len(),
                raw@ == seq![version] + nonce@.subrange(0, i as int),
            decreases nonce@.len() - i,
        {
            raw.push(nonce[i]);
            i = i + 1;
            assert(raw@ =~= seq![version] + nonce@.subrange(0, i as int));
        }
        let mut j: usize = 0;
        while j < ct.len()
            invariant
                0 <= j <= ct@.len(),
                raw@ == seq![version] + nonce@ + ct@.subrange(0, j as int),
            decreases ct@.len() - j,
        {
            raw.push(ct[j]);
            j = j + 1;
            assert(raw@ =~= seq![version] + nonce@ + ct@.subrange(0, j as int));
        }
        assert(nonce@.subrange(0, nonce@.len() as int) =~= nonce@);
        assert(ct@.subrange(0, ct@.len() as int) =~= ct@);
        to_hex(raw.as_slice())
    }

    /// The token text of `payload` sealed with a fresh random nonce.
    pub fn encode(&self, version: u8, payload: &Vec<u8>) -> (r: Vec<u8>)
        requires
            self.wf(),
            payload@.len() <= MAX_PLAINTEXT_LEN,
        ensures
            exists|nonce: Seq<u8>|
                nonce.len() == NONCE_LEN && r@ == token_text(self@, version, nonce, payload@),
            forall|i: int| 0 <= i < r@.len() ==> #[trigger] r@[i] < 128,
    {
        let nonce = fresh_nonce();
        self.encode_with_nonce(version, &nonce, payload)
    }

    /// The payload of a token text of version `version`. A token made by
    /// `encode` under this encryptor's secret opens to its payload; a token
    /// of another version is refused.
    pub fn decode(&self, version: u8, text: &[u8]) -> (r: Option<Vec<u8>>)
        requires
            self.wf(),
        ensures
            forall|nonce: Seq<u8>, p: Seq<u8>|
                nonce.len() == NONCE_LEN && p.len() <= MAX_PLAINTEXT_LEN && text@ == #[trigger] token_text(
                    self@,
                    version,
                    nonce,
                    p,
                ) ==> (r matches Some(v) && v@ == p),
            malformed_token(text@, version) ==> r is None,
    {
        let raw = match from_hex(text) {
            Some(raw) => raw,
            None => {
                proof {
                    assert forall|nonce: Seq<u8>, p: Seq<u8>|
                        nonce.len() == NONCE_LEN && p.len() <= MAX_PLAINTEXT_LEN && text@
                            == #[trigger] token_text(self@, version, nonce, p) implies false by {
                        crate::codec::lemma_hex_round_trip(seq![version] + nonce + sealed(self@, nonce, p));
                    }
                }
                return None;
            },
        };
        if raw.len() < 1 + NONCE_LEN || raw[0] != version {
            proof {
                assert forall|nonce: Seq<u8>, p: Seq<u8>|
                    nonce.len() == NONCE_LEN && p.len() <= MAX_PLAINTEXT_LEN && text@
                        == #[trigger] token_text(self@, version, nonce, p) implies false by {
                    crate::codec::lemma_hex_round_trip(seq![version] + nonce + sealed(self@, nonce, p));
                    assert((seq![version] + nonce + sealed(self@, nonce, p))[0] == version);
                }
            }
            return None;
        }
        let mut nonce: Vec<u8> = Vec::new();
        let mut i: usize = 1;
        while i < 1 + NONCE_LEN
            invariant
                1 <= i <= 1 + NONCE_LEN,
                raw@.len() >= 1 + NONCE_LEN,
                nonce@ == raw@.subrange(1, i as int),
            decreases 1 + NONCE_LEN - i,
        {
            nonce.push(raw[i]);
            i = i + 1;
            assert(nonce@ =~= raw@.subrange(1, i as int));
        }
        let mut ct: Vec<u8> = Vec::new();
        let mut j: usize = 1 + NONCE_LEN;
        while j < raw.len()
            invariant
                1 + NONCE_LEN <= j <= raw@.len(),
                ct@ == raw@.subrange(1 + NONCE_LEN, j as int),
            decreases raw@.len() - j,
        {
            ct.push(raw[j]);
            j = j + 1;
            assert(ct@ =~= raw@.subrange(1 + NONCE_LEN, j as int));
        }
        let r = open(self.key.as_slice(), nonce.as_slice(), ct.as_slice());
        proof {
            assert forall|n: Seq<u8>, p: Seq<u8>|
                n.len() == NONCE_LEN && p.len() <= MAX_PLAINTEXT_LEN && text@ == #[trigger] token_text(
                    self@,
                    version,
                    n,
                    p,
                ) implies (r matches Some(v) && v@ == p) by {
                let whole = seq![version] + n + sealed(self@, n, p);
                crate::codec::lemma_hex_round_trip(whole);
                assert(raw@ == whole);
                assert(nonce@ =~= n);
                assert(ct@ =~= sealed(self@, n, p));
            }
        }
        r
    }
}

/// Relies on `SystemTime::elapsed` since the Unix epoch: the current time in
/// whole seconds (0 should the clock stand before the epoch).
#[verifier::external_body]
pub(crate) fn unix_seconds_now() -> (r: u64) {
    match std::time::SystemTime::UNIX_EPOCH.elapsed() {
        Ok(d) => d.as_secs(),
        Err(_) => 0,
    }
}

} // verus!
