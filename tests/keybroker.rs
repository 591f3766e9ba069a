use std::time::{SystemTime, UNIX_EPOCH};

use textsearch::broker::{
    AdminIdentityProto,
    AuthenticationToken,
    IdentityCacheKey,
    IdentityProto,
    InertIdentity,
    KeyBrokerError,
    ADMIN_KEY_VERSION,
};
use textsearch::payload::{AdminKeyIdentity, AdminKeyProto};
use textsearch::{
    AdminIdentity,
    AdminKey,
    Cursor,
    CursorPosition,
    Identity,
    InstanceSecret,
    KeyBroker,
    MemberId,
    PersistenceVersion,
    QueryJournal,
    UserIdentity,
    UserIdentityAttributes,
};

fn now_s() -> u64 {
    SystemTime::now().duration_since(UNIX_EPOCH).unwrap().as_secs()
}

#[test]
fn test_admin_keys() {
    let kb = KeyBroker::dev();
    let key = kb.issue_admin_key(MemberId(0));
    let admin = kb.check_admin_key(key.as_str()).unwrap();
    assert!(admin.is_admin());
    assert!(!admin.is_system());
}

#[test]
fn test_system_keys() {
    let kb = KeyBroker::dev();
    let key = kb.issue_system_key();
    let system = kb.check_admin_key(key.as_str()).unwrap();
    assert!(!system.is_admin());
    assert!(system.is_system());
}

#[test]
fn test_admin_keys_with_prefix() {
    let kb = KeyBroker::dev();
    let key = kb.issue_admin_key(MemberId(0));
    let prefixed_key = format!("prod:{}", key.as_str());
    let admin = kb.check_admin_key(&prefixed_key).unwrap();
    assert!(admin.is_admin());
    assert!(!admin.is_system());
}

#[test]
fn test_old_admin_keys() {
    let kb = KeyBroker::dev();
    let proto = AdminKeyProto {
        instance_name: Some(b"carnitas".to_vec()),
        issued_s: now_s(),
        identity: Some(AdminKeyIdentity::MemberId(0)),
    };
    let token = kb.encryptor().encode(ADMIN_KEY_VERSION, &proto.encode());
    let key = AdminKey::new(String::from_utf8(token).unwrap());
    kb.check_admin_key(key.as_str()).unwrap();
}

#[test]
fn admin_key_names_member_and_instance() {
    let kb = KeyBroker::dev();
    let key = kb.issue_admin_key(MemberId(42));
    assert!(key.as_str().starts_with("carnitas|"));
    match kb.check_admin_key(key.as_str()).unwrap() {
        Identity::InstanceAdmin(a) => {
            assert_eq!(a.member_id(), MemberId(42));
            assert_eq!(a.instance_name(), "carnitas");
            assert_eq!(a.key(), key.as_str());
        },
        _ => panic!("admin identity expected"),
    }
}

#[test]
fn keys_use_fresh_nonces() {
    let kb = KeyBroker::dev();
    let a = kb.issue_admin_key(MemberId(1));
    let b = kb.issue_admin_key(MemberId(1));
    assert_ne!(a.as_str(), b.as_str());
}

#[test]
fn key_for_another_instance_is_refused() {
    let kb = KeyBroker::dev();
    let other = KeyBroker::new("other-instance", InstanceSecret { bytes: vec![7u8; 32] }).unwrap();
    let key = other.issue_admin_key(MemberId(42));
    assert!(kb.check_admin_key(key.as_str()).is_err());
    let same_secret = KeyBroker::new("other-instance", InstanceSecret {
        bytes: b"Carnitas, literally meaning \"lit".to_vec(),
    })
    .unwrap();
    let key = same_secret.issue_admin_key(MemberId(42));
    assert!(matches!(kb.check_admin_key(key.as_str()), Err(KeyBrokerError::KeyForOtherInstance)));
}

#[test]
fn garbage_admin_key_is_refused() {
    let kb = KeyBroker::dev();
    assert!(matches!(kb.check_admin_key("carnitas|zz"), Err(KeyBrokerError::UndecodableAdminKey)));
}

#[test]
fn invalid_secret_is_refused() {
    let r = KeyBroker::new("x", InstanceSecret { bytes: vec![1, 2, 3] });
    assert!(matches!(r, Err(KeyBrokerError::InvalidInstanceSecret)));
}

#[test]
fn test_store_file_authorization() {
    let kb = KeyBroker::dev();
    let now = now_s();
    let key = kb.issue_store_file_authorization(now, now).unwrap();
    kb.check_store_file_authorization(now_s(), key.as_str(), 60).unwrap();
}

#[test]
fn test_cant_issue_backwards_timestamps() {
    let kb = KeyBroker::dev();
    let now = now_s();
    let hour_ago = now - 3600;
    kb.issue_store_file_authorization(now, hour_ago).unwrap_err();
}

#[test]
fn expired_store_file_authorization() {
    let kb = KeyBroker::dev();
    let now = now_s();
    let key = kb.issue_store_file_authorization(now, now).unwrap();
    let err = kb.check_store_file_authorization(now + 61, key.as_str(), 60).unwrap_err();
    assert_eq!(err, KeyBrokerError::StorageTokenExpired);
    assert_eq!(err.short_code(), Some("StorageTokenExpired"));
    let err = kb.check_store_file_authorization(now, "00", 60).unwrap_err();
    assert_eq!(err, KeyBrokerError::StorageTokenInvalid);
}

#[test]
fn test_cursors() {
    let kb = KeyBroker::dev();
    let cursor = Cursor { position: CursorPosition::End, query_fingerprint: vec![] };
    let encrypted = kb.encrypt_cursor(&cursor, PersistenceVersion::default_version());
    let echoed = kb.decrypt_cursor(&encrypted, PersistenceVersion::default_version()).unwrap();
    assert!(matches!(echoed.position, CursorPosition::End));
    assert_eq!(echoed.query_fingerprint, cursor.query_fingerprint);
}

#[test]
fn cursor_after_key_round_trips() {
    let kb = KeyBroker::dev();
    let cursor = Cursor { position: CursorPosition::After(vec![1, 2, 3]), query_fingerprint: vec![9, 8] };
    let encrypted = kb.encrypt_cursor(&cursor, PersistenceVersion::default_version());
    let echoed = kb.decrypt_cursor(&encrypted, PersistenceVersion::default_version()).unwrap();
    assert!(matches!(echoed.position, CursorPosition::After(ref k) if k == &vec![1, 2, 3]));
    assert_eq!(echoed.query_fingerprint, vec![9, 8]);
    let other = KeyBroker::new("other", InstanceSecret {
        bytes: b"Carnitas, literally meaning \"lit".to_vec(),
    })
    .unwrap();
    let err = other.decrypt_cursor(&encrypted, PersistenceVersion::default_version()).unwrap_err();
    assert_eq!(err, KeyBrokerError::InvalidCursor);
}

#[test]
fn query_journals_round_trip() {
    let kb = KeyBroker::dev();
    let empty = QueryJournal::new();
    let serialized = kb.encrypt_query_journal(&empty, PersistenceVersion::default_version());
    assert!(serialized.is_none());
    let back = kb.decrypt_query_journal(None, PersistenceVersion::default_version()).unwrap();
    assert!(back.end_cursor.is_none());
    let journal = QueryJournal {
        end_cursor: Some(Cursor { position: CursorPosition::After(vec![100]), query_fingerprint: vec![1] }),
    };
    let serialized = kb.encrypt_query_journal(&journal, PersistenceVersion::default_version());
    let back = kb.decrypt_query_journal(serialized, PersistenceVersion::default_version()).unwrap();
    let c = back.end_cursor.unwrap();
    assert!(matches!(c.position, CursorPosition::After(ref k) if k == &vec![100]));
    assert_eq!(c.query_fingerprint, vec![1]);
}

#[test]
fn test_action_token() {
    let kb = KeyBroker::dev();
    let before_issue = now_s();
    let token = kb.issue_action_token();
    let after_issue = now_s();

    let issue_time = kb.check_action_token(&token, 60).unwrap();
    assert!(issue_time + 1 > before_issue);
    assert!(issue_time <= after_issue);

    let err = kb.check_action_token(&token, 0).unwrap_err();
    assert!(err.message().contains("Action callback token expired"));

    let err = kb.check_action_token("invalid-token", 60).unwrap_err();
    assert!(err.message().contains("Couldn't decode ActionCallbackTokenProto"));
}

#[test]
fn identity_helpers() {
    let unknown = Identity::Unknown;
    assert_eq!(unknown.assert_present(), Err(KeyBrokerError::AuthorizationMissing));
    let system = Identity::system();
    assert!(system.assert_present().is_ok());
    assert!(system.equals(&Identity::system()));
    assert!(!system.equals(&unknown));
    assert!(system.member_id().is_none());
}

fn attributes(token: &str) -> UserIdentityAttributes {
    UserIdentityAttributes {
        token_identifier: token.to_string(),
        subject: Some("subject".to_string()),
        issuer: None,
        name: Some("Ann".to_string()),
        email: None,
    }
}

#[test]
fn test_identity_proto_roundtrips() {
    let kb = KeyBroker::dev();
    let key = kb.issue_admin_key(MemberId(7));
    let admin = kb.check_admin_key(key.as_str()).unwrap();
    let user = Identity::user(UserIdentity {
        subject: "subject".to_string(),
        issuer: "https://issuer".to_string(),
        expiration_s: 100,
        attributes: attributes("https://issuer|subject"),
        original_token: "token".to_string(),
    });
    for identity in [admin, Identity::system(), user, Identity::Unknown] {
        let proto = identity.to_proto();
        let back = Identity::from_proto_unchecked(proto).unwrap();
        assert!(back == identity);
    }
}

#[test]
fn test_admin_identity_proto_roundtrips() {
    let admin = AdminIdentity::new_for_test_only("fake-instance-name".to_string(), MemberId(3));
    let back = AdminIdentity::from_proto_unchecked(admin.to_proto()).unwrap();
    assert!(back.same_as(&admin));
    let missing = AdminIdentityProto { instance_name: None, member_id: Some(1), key: Some("k".to_string()) };
    assert_eq!(AdminIdentity::from_proto_unchecked(missing).unwrap_err(), KeyBrokerError::MissingIdentityField);
}

#[test]
fn missing_identity_is_refused() {
    let err = Identity::from_proto_unchecked(IdentityProto { identity: None }).unwrap_err();
    assert_eq!(err, KeyBrokerError::MissingNestedIdentity);
}

#[test]
fn cache_keys_and_inert_identities() {
    let admin = Identity::InstanceAdmin(AdminIdentity::new_for_test_only("inst".to_string(), MemberId(3)));
    match admin.cache_key() {
        IdentityCacheKey::InstanceAdmin(n) => assert_eq!(n, "inst"),
        other => panic!("unexpected {other:?}"),
    }
    match admin.into_inert() {
        InertIdentity::InstanceAdmin(n) => assert_eq!(n, "inst"),
        other => panic!("unexpected {other:?}"),
    }
    let acting = Identity::ActingUser(
        AdminIdentity::new_for_test_only("inst".to_string(), MemberId(3)),
        attributes("tok"),
    );
    match acting.into_authentication_token() {
        AuthenticationToken::Admin(k, Some(a)) => {
            assert_eq!(k, "chocolate-charlies-cupcake");
            assert_eq!(a.token_identifier, "tok");
        },
        other => panic!("unexpected {other:?}"),
    }
}

#[test]
fn users_compare_by_token_identifier() {
    let make = |sub: &str| {
        Identity::user(UserIdentity {
            subject: sub.to_string(),
            issuer: "i".to_string(),
            expiration_s: 10,
            attributes: attributes("same"),
            original_token: sub.to_string(),
        })
    };
    assert!(make("a") == make("b"));
    assert!(make("a").is_user());
    assert!(make("a").user_identity().unwrap().is_expired(10));
    assert!(!make("a").user_identity().unwrap().is_expired(9));
}

#[test]
fn test_query_journal_size() {
    let kb = KeyBroker::dev();

    // An empty journal serializes as nothing.
    let empty_journal = QueryJournal::new();
    let serialized_empty_journal =
        kb.encrypt_query_journal(&empty_journal, PersistenceVersion::default_version());
    assert!(serialized_empty_journal.is_none());

    // A journal ending at a cursor after a 10-byte index key, with a 32-byte
    // query fingerprint: 68 payload bytes, sealed with a 16-byte tag behind
    // the version byte and nonce, written as hexadecimal.
    let mut journal_with_cursor = QueryJournal::new();
    journal_with_cursor.end_cursor = Some(Cursor {
        position: CursorPosition::After(vec![100; 10]),
        query_fingerprint: vec![7; 32],
    });
    let serialized_journal_with_cursor =
        kb.encrypt_query_journal(&journal_with_cursor, PersistenceVersion::default_version());
    assert_eq!(serialized_journal_with_cursor.unwrap().len(), 194);
}

#[test]
fn error_messages_and_codes() {
    assert_eq!(
        KeyBrokerError::InvalidStorageToken.message(),
        "Storage token is for invalid instance {instance_name}"
    );
    assert_eq!(KeyBrokerError::InvalidStorageToken.short_code(), Some("InvalidStorageToken"));
    assert_eq!(KeyBrokerError::InvalidCursor.short_code(), Some("InvalidCursor"));
    assert_eq!(KeyBrokerError::KeyForOtherInstance.short_code(), None);
    assert_eq!(KeyBrokerError::MissingNestedIdentity.message(), "Missing nested identity");
}
