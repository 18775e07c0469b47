use cipherstash_dynamodb::attrs::Plaintext;
use cipherstash_dynamodb::error::QueryError;
use cipherstash_dynamodb::query::{
    IndexDefinition, IndexTerm, IndexType, PreparedQuery, PreparedQueryBuilder, QueryBuilder,
    SingleIndex,
};

fn user_indexes() -> PreparedQueryBuilder {
    PreparedQueryBuilder::new(
        "user",
        vec![
            IndexDefinition::new("email", IndexType::Single(SingleIndex::Exact)),
            IndexDefinition::new("name", IndexType::Single(SingleIndex::Prefix)),
            IndexDefinition::new(
                "email#name",
                IndexType::Compound2(SingleIndex::Exact, SingleIndex::Prefix),
            ),
        ],
    )
}

fn text(s: &str) -> Plaintext {
    Plaintext::from_text(s)
}

#[test]
fn single_field_exact_query() {
    let q = QueryBuilder::new()
        .eq("email", text("dan@x.co"))
        .build(&user_indexes())
        .expect("resolves");
    assert_eq!(q.index_name(), "email");
    assert_eq!(q.index().index_type, IndexType::Single(SingleIndex::Exact));
    assert_eq!(q.plaintexts(), &vec![text("dan@x.co")]);
    assert_eq!(q.info(), "user#email");
    let term = PreparedQuery::term_from(IndexTerm::Binary(vec![7, 1]));
    assert_eq!(term, Ok(vec![7, 1]));
}

#[test]
fn single_field_prefix_query() {
    let q = QueryBuilder::new()
        .starts_with("name", text("Dan"))
        .build(&user_indexes())
        .expect("resolves");
    assert_eq!(q.index_name(), "name");
    assert_eq!(q.info(), "user#name");
}

#[test]
fn compound_query_either_order() {
    let q1 = QueryBuilder::new()
        .eq("email", text("dan@coderdan.co"))
        .starts_with("name", text("Dan"))
        .build(&user_indexes())
        .expect("resolves");
    let q2 = QueryBuilder::new()
        .starts_with("name", text("Dan"))
        .eq("email", text("dan@coderdan.co"))
        .build(&user_indexes())
        .expect("resolves");
    assert_eq!(q1.index_name(), "email#name");
    assert_eq!(q2.index_name(), "email#name");
    assert_eq!(q1.index(), q2.index());
    assert_eq!(q1.plaintexts(), &vec![text("dan@coderdan.co"), text("Dan")]);
    assert_eq!(q2.plaintexts(), &vec![text("dan@coderdan.co"), text("Dan")]);
    assert_eq!(q2.info(), "user#email#name");
}

#[test]
fn wrong_kind_is_unresolvable() {
    let r = QueryBuilder::new()
        .starts_with("email", text("dan"))
        .build(&user_indexes());
    assert!(matches!(r, Err(QueryError::UnresolvableQuery(f)) if f == "email"));
}

#[test]
fn unknown_fields_are_unresolvable() {
    let r = QueryBuilder::new()
        .eq("age", text("3"))
        .eq("city", text("x"))
        .build(&user_indexes());
    assert!(matches!(r, Err(QueryError::UnresolvableQuery(f)) if f == "age,city"));
}

#[test]
fn empty_query_is_invalid() {
    let r = QueryBuilder::new().build(&user_indexes());
    assert!(matches!(r, Err(QueryError::InvalidQuery(_))));
}

#[test]
fn three_predicates_are_invalid() {
    let r = QueryBuilder::new()
        .eq("email", text("a"))
        .starts_with("name", text("b"))
        .eq("city", text("c"))
        .build(&user_indexes());
    assert!(matches!(r, Err(QueryError::InvalidQuery(_))));
}

#[test]
fn non_binary_term_is_refused() {
    assert!(matches!(
        PreparedQuery::term_from(IndexTerm::BinaryVec(vec![vec![1]])),
        Err(QueryError::UnexpectedTermShape(_))
    ));
    assert!(matches!(
        PreparedQuery::term_from(IndexTerm::Null),
        Err(QueryError::UnexpectedTermShape(_))
    ));
}

#[test]
fn backend_is_carried() {
    let b = QueryBuilder::with_backend(42u8).eq("email", text("a"));
    assert_eq!(*b.storage(), 42);
}

#[test]
fn index_lookup_first_match() {
    let reg = user_indexes();
    assert_eq!(
        reg.index_by_name(&"email#name".to_string(), IndexType::Compound2(SingleIndex::Exact, SingleIndex::Prefix)),
        Some(2)
    );
    assert_eq!(
        reg.index_by_name(&"email".to_string(), IndexType::Single(SingleIndex::Prefix)),
        None
    );
}
