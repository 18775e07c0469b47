use cipherstash_dynamodb::attrs::{
    FlattenedProtectedAttribute, FlattenedProtectedAttributes, Plaintext,
};
use cipherstash_dynamodb::chunk::chunk_results;
use cipherstash_dynamodb::error::SealError;
use cipherstash_dynamodb::flatten::{flatten, FieldValue, NormalizedProtectedAttributes};
use cipherstash_dynamodb::key::FlattenedKey;

fn attr(value: &str, key: &str) -> FlattenedProtectedAttribute {
    FlattenedProtectedAttribute::new(Plaintext::from_text(value), FlattenedKey::parse(key))
}

#[test]
fn test_into_iter() {
    let fpa1 = attr("value1", "key1");
    let fpa2 = attr("value2", "key2");
    let fpa3 = attr("value3", "key3");

    let fpa = FlattenedProtectedAttributes::from_vec(vec![fpa1, fpa2, fpa3]);

    let mut iter = fpa.into_iter().into_iter();

    assert_eq!(iter.next().unwrap(), attr("value1", "key1"));
    assert_eq!(iter.next().unwrap(), attr("value2", "key2"));
    assert_eq!(iter.next().unwrap(), attr("value3", "key3"));
    assert_eq!(iter.next(), None);
}

#[test]
fn test_chain_iters() {
    let fpa1 = FlattenedProtectedAttributes::from_vec(vec![
        attr("value1", "key1"),
        attr("value2", "key2"),
        attr("value3", "key3"),
    ]);

    let fpa2 = FlattenedProtectedAttributes::from_vec(vec![
        attr("value4", "key4"),
        attr("value5", "key5"),
        attr("value6", "key6"),
    ]);

    let fpa3 = FlattenedProtectedAttributes::from_vec(vec![
        attr("value7", "key7"),
        attr("value8", "key8"),
        attr("value9", "key9"),
    ]);

    let fpas = vec![fpa1, fpa2, fpa3];
    let mut iter = fpas.into_iter().flat_map(|fpa| fpa.into_iter());

    assert_eq!(iter.next().unwrap(), attr("value1", "key1"));
    assert_eq!(iter.next().unwrap(), attr("value2", "key2"));
    assert_eq!(iter.next().unwrap(), attr("value3", "key3"));
    assert_eq!(iter.next().unwrap(), attr("value4", "key4"));
    assert_eq!(iter.next().unwrap(), attr("value5", "key5"));
    assert_eq!(iter.next().unwrap(), attr("value6", "key6"));
    assert_eq!(iter.next().unwrap(), attr("value7", "key7"));
    assert_eq!(iter.next().unwrap(), attr("value8", "key8"));
    assert_eq!(iter.next().unwrap(), attr("value9", "key9"));
    assert_eq!(iter.next(), None);
}

#[test]
fn extend_appends_in_order() {
    let mut a = FlattenedProtectedAttributes::new_with_capacity(4);
    assert!(a.is_empty());
    a.extend(FlattenedProtectedAttributes::from_vec(vec![attr("v1", "k1")]));
    a.extend(FlattenedProtectedAttributes::from_vec(vec![attr("v2", "k2"), attr("v3", "k3")]));
    assert_eq!(a.len(), 3);
    assert_eq!(
        a.into_iter(),
        vec![attr("v1", "k1"), attr("v2", "k2"), attr("v3", "k3")]
    );
}

#[test]
fn from_iter_parses_descriptors() {
    let batch = FlattenedProtectedAttributes::from_iter(vec![
        (Plaintext::from_text("a"), "user/email".to_string()),
        (Plaintext::from_text("b"), "prefs.x".to_string()),
    ]);
    assert_eq!(
        batch.into_iter(),
        vec![
            FlattenedProtectedAttribute::new(
                Plaintext::from_text("a"),
                FlattenedKey::prefixed("user", "email")
            ),
            FlattenedProtectedAttribute::new(
                Plaintext::from_text("b"),
                FlattenedKey::new(None, "prefs").with_subkey("x")
            ),
        ]
    );
}

#[test]
fn encryption_inputs_carry_descriptors() {
    let batch = FlattenedProtectedAttributes::from_vec(vec![
        FlattenedProtectedAttribute::new(
            Plaintext::from_text("dan@x.co"),
            FlattenedKey::prefixed("user", "email"),
        ),
        FlattenedProtectedAttribute::new(
            Plaintext::new(vec![1, 2]),
            FlattenedKey::new(None, "prefs").with_subkey("x"),
        ),
    ]);
    let inputs = batch.encryption_inputs();
    assert_eq!(inputs.len(), 2);
    assert_eq!(inputs[0].bytes, b"dan@x.co".to_vec());
    assert_eq!(inputs[0].descriptor, "user/email");
    assert_eq!(inputs[1].bytes, vec![1, 2]);
    assert_eq!(inputs[1].descriptor, "prefs.x");
}

#[test]
fn normalize_into_parts_keeps_plaintext() {
    let a = FlattenedProtectedAttribute::new(
        Plaintext::from_text("v"),
        FlattenedKey::prefixed("p", "prefs").with_subkey("x"),
    );
    assert_eq!(a.descriptor(), "p/prefs.x");
    let (p, _, sk) = a.normalize_into_parts();
    assert_eq!(p, Plaintext::from_text("v"));
    assert_eq!(sk, Some("x".to_string()));
}

#[test]
fn chunks_keep_order() {
    let items: Vec<u32> = (1..=7).collect();
    let chunks = chunk_results(items, 3);
    assert_eq!(chunks, vec![vec![1, 2, 3], vec![4, 5, 6], vec![7]]);
}

#[test]
fn chunks_exact_multiple() {
    let chunks = chunk_results(vec![1u8, 2, 3, 4], 2);
    assert_eq!(chunks, vec![vec![1, 2], vec![3, 4]]);
}

#[test]
fn chunks_of_empty_batch() {
    let chunks = chunk_results(Vec::<u8>::new(), 5);
    assert!(chunks.is_empty());
}

#[test]
fn chunks_larger_than_batch() {
    let chunks = chunk_results(vec![9u8, 8], 10);
    assert_eq!(chunks, vec![vec![9, 8]]);
}

fn prefs_fields() -> Vec<(String, FieldValue)> {
    vec![
        ("email".to_string(), FieldValue::Scalar(Plaintext::from_text("dan@x.co"))),
        (
            "prefs".to_string(),
            FieldValue::Entries(vec![
                ("x".to_string(), Plaintext::from_text("one")),
                ("y".to_string(), Plaintext::from_text("two")),
            ]),
        ),
    ]
}

#[test]
fn flatten_scalars_and_entries() {
    let batch = flatten(Some("user".to_string()), &prefs_fields());
    let inputs = batch.encryption_inputs();
    let descriptors: Vec<String> = inputs.iter().map(|i| i.descriptor.clone()).collect();
    assert_eq!(descriptors, vec!["user/email", "user/prefs.x", "user/prefs.y"]);
    assert_eq!(inputs[1].bytes, b"one".to_vec());
}

#[test]
fn map_entry_round_trip() {
    let batch = flatten(Some("user".to_string()), &prefs_fields());
    let decrypted: Vec<(Plaintext, String)> = batch
        .encryption_inputs()
        .into_iter()
        .map(|i| (Plaintext::new(i.bytes), i.descriptor))
        .collect();
    let back = NormalizedProtectedAttributes::from_flattened(
        FlattenedProtectedAttributes::from_iter(decrypted),
    );
    assert_eq!(back.get_map_entry("prefs", "x"), Ok(Plaintext::from_text("one")));
    assert_eq!(back.get_map_entry("prefs", "y"), Ok(Plaintext::from_text("two")));
    assert_eq!(back.get_scalar("email"), Ok(Plaintext::from_text("dan@x.co")));
}

#[test]
fn missing_attribute_not_found() {
    let back = NormalizedProtectedAttributes::from_flattened(flatten(None, &prefs_fields()));
    assert_eq!(
        back.get_map_entry("prefs", "z"),
        Err(SealError::NotFound("prefs.z".to_string()))
    );
    assert_eq!(
        back.get_scalar("name"),
        Err(SealError::NotFound("name".to_string()))
    );
    assert_eq!(
        back.get_scalar("prefs"),
        Err(SealError::NotFound("prefs".to_string()))
    );
}
