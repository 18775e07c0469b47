use cipherstash_dynamodb::key::{FlattenedKey, NormalizedKey};

#[test]
fn test_flattened_key_from_string() {
    assert_eq!(FlattenedKey::new(None, "foo"), FlattenedKey::parse("foo"));
}

#[test]
fn test_flattened_key_from_tuple() {
    assert_eq!(
        FlattenedKey::new(Some("prefix".to_string()), "foo"),
        FlattenedKey::prefixed("prefix", "foo")
    );
}

#[test]
fn test_flattened_key_descriptor() {
    assert_eq!(FlattenedKey::new(None, "foo").descriptor(), "foo");
    assert_eq!(
        FlattenedKey::new(Some("pref".to_string()), "foo").descriptor(),
        "pref/foo"
    );
    assert_eq!(
        FlattenedKey::new(None, "foo").with_subkey("x").descriptor(),
        "foo.x"
    );
    assert_eq!(
        FlattenedKey::new(Some("pref".to_string()), "foo")
            .with_subkey("x")
            .descriptor(),
        "pref/foo.x"
    );
}

#[test]
fn test_flattened_key_parse() {
    assert_eq!(FlattenedKey::parse("key"), FlattenedKey::parse("key"));
    assert_eq!(FlattenedKey::parse("key"), FlattenedKey::new(None, "key"));
    assert_eq!(FlattenedKey::parse("prefix/key"), FlattenedKey::prefixed("prefix", "key"));
    assert_eq!(
        FlattenedKey::parse("key.subkey"),
        FlattenedKey::parse("key").with_subkey("subkey")
    );
    assert_eq!(
        FlattenedKey::parse("prefix/key.subkey"),
        FlattenedKey::prefixed("prefix", "key").with_subkey("subkey")
    );
}

#[test]
fn descriptor_round_trip_all_shapes() {
    let keys = vec![
        FlattenedKey::new(None, "email"),
        FlattenedKey::prefixed("user", "email"),
        FlattenedKey::new(None, "prefs").with_subkey("x"),
        FlattenedKey::prefixed("user", "prefs").with_subkey("y"),
    ];
    for k in keys {
        assert_eq!(FlattenedKey::parse(&k.descriptor()), k);
    }
}

#[test]
fn parse_splits_on_first_separators() {
    let k = FlattenedKey::parse("a/b/c.d.e");
    assert_eq!(k.prefix(), Some("a".to_string()));
    assert_eq!(k.into_key_parts(), ("b/c".to_string(), Some("d.e".to_string())));
}

#[test]
fn parse_dot_before_slash() {
    let k = FlattenedKey::parse("a.b/c");
    assert_eq!(k.prefix(), Some("a.b".to_string()));
    assert_eq!(k.into_key_parts(), ("c".to_string(), None));
}

#[test]
fn parse_empty_descriptor() {
    let k = FlattenedKey::parse("");
    assert_eq!(k, FlattenedKey::new(None, ""));
    assert!(!k.has_subkey());
}

#[test]
fn into_key_parts_drops_prefix() {
    let k = FlattenedKey::prefixed("user", "prefs").with_subkey("x");
    assert!(k.has_subkey());
    assert_eq!(k.into_key_parts(), ("prefs".to_string(), Some("x".to_string())));
}

#[test]
fn normalize_scalar_and_map() {
    match FlattenedKey::prefixed("user", "email").normalize() {
        (NormalizedKey::Scalar(k), None) => assert_eq!(k, "email"),
        _ => panic!("expected a scalar"),
    }
    match FlattenedKey::new(None, "prefs").with_subkey("x").normalize() {
        (NormalizedKey::MapKey(k), Some(sk)) => {
            assert_eq!(k, "prefs");
            assert_eq!(sk, "x");
        }
        _ => panic!("expected a map entry"),
    }
}
