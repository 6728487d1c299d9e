use glossary::response::ErrorKind;
use glossary::store::Store;
use glossary::v1::glossary::GlossaryDB;
use glossary::v1::like::{
    create_like, create_like_with, delete_one_like, list, list_likes, minus_one, plus_one, Like,
    LikeDB,
};

fn item(id: uuid::Uuid, term: &str, definition: &str) -> GlossaryDB {
    GlossaryDB {
        id: id.as_u128(),
        term: term.to_string(),
        definition: definition.to_string(),
        revision: 1,
        created_at: chrono::Utc::now().timestamp_micros(),
        updated_at: chrono::Utc::now().timestamp_micros(),
    }
}

fn store_with_one(glossary_id: uuid::Uuid) -> Store {
    let mut store = Store::new();
    store
        .insert_entry(item(glossary_id, "test_term_1", "test_definition_1"))
        .expect("could not insert glossary");
    store
}

#[test]
fn list_like_non_exists_glossary() {
    let store = Store::new();
    let non_exist_id = uuid::Uuid::new_v4();
    let response = list(&store, &format!("{}", non_exist_id)).unwrap();
    assert_eq!(response.count, 0);
    assert!(response.results.is_empty());
}

#[test]
fn list_like_invalid_glossary() {
    let store = Store::new();
    let e = list(&store, "abc1234").unwrap_err();
    assert_eq!(e.status_code(), 400);
}

#[test]
fn add_like_invalid_glossary() {
    let mut store = Store::new();
    let e = plus_one(&mut store, "abc1234", None).unwrap_err();
    assert_eq!(e.status_code(), 400);
    assert_eq!(e.message, "Invalid glossary ID format");
}

#[test]
fn list_like_empty() {
    let glossary_id = uuid::Uuid::new_v4();
    let mut store = Store::new();
    store
        .insert_entry(item(glossary_id, "test_term", "test_definition"))
        .expect("could not insert glossary");
    let response = list(&store, &format!("{}", glossary_id)).unwrap();
    assert_eq!(response.count, 0);
}

#[test]
fn one_like() {
    let glossary_id = uuid::Uuid::new_v4();
    let mut store = store_with_one(glossary_id);
    let like = plus_one(&mut store, &format!("{}", glossary_id), None).unwrap();
    let response = list(&store, &format!("{}", glossary_id)).unwrap();
    assert_eq!(response.count, 1);
    assert_eq!(response.results, vec![like]);
}

#[test]
fn one_like_non_exists_glossary() {
    let mut store = Store::new();
    let non_exists_glossary_id = uuid::Uuid::new_v4();
    let e = plus_one(&mut store, &format!("{}", non_exists_glossary_id), None).unwrap_err();
    assert_eq!(e.kind, ErrorKind::Conflict);
    assert_eq!(e.status_code(), 409);
    assert!(store.likes().is_empty());
}

#[test]
fn like_two_times() {
    let glossary_id = uuid::Uuid::new_v4();
    let mut store = store_with_one(glossary_id);
    let first = plus_one(&mut store, &format!("{}", glossary_id), None).unwrap();
    let second =
        plus_one(&mut store, &format!("{}", glossary_id), Some("ada@example.org".to_string()))
            .unwrap();
    let response = list(&store, &format!("{}", glossary_id)).unwrap();
    assert_eq!(response.count, 2);
    assert_ne!(first.id, second.id);
    assert_ne!(response.results[0].id, response.results[1].id);
    assert_eq!(second.who.as_deref(), Some("ada@example.org"));
}

#[test]
fn like_then_unlike() {
    let glossary_id = uuid::Uuid::new_v4();
    let mut store = store_with_one(glossary_id);
    let _ = plus_one(&mut store, &format!("{}", glossary_id), None).unwrap();
    let likes = list(&store, &format!("{}", glossary_id)).unwrap();
    assert_eq!(likes.count, 1);

    let m = minus_one(&mut store, &format!("{}", glossary_id)).unwrap();
    assert_eq!(m.message, "ok");
    let likes = list(&store, &format!("{}", glossary_id)).unwrap();
    assert_eq!(likes.count, 0);
}

#[test]
fn unlike_without_likes_changes_nothing() {
    let glossary_id = uuid::Uuid::new_v4();
    let other_id = uuid::Uuid::new_v4();
    let mut store = store_with_one(glossary_id);
    store.insert_entry(item(other_id, "other", "d")).unwrap();
    create_like(&mut store, other_id.as_u128(), None).unwrap();
    let before = store.likes();
    assert_eq!(minus_one(&mut store, &format!("{}", glossary_id)).unwrap().message, "ok");
    assert!(delete_one_like(&mut store, glossary_id.as_u128(), None).is_ok());
    assert_eq!(store.likes(), before);
    assert_eq!(minus_one(&mut store, &format!("{}", uuid::Uuid::new_v4())).unwrap().message, "ok");
    assert_eq!(store.likes(), before);
    assert_eq!(minus_one(&mut store, "nope").unwrap_err().status_code(), 400);
}

#[test]
fn likes_are_listed_from_the_newest_to_the_oldest() {
    let mut store = Store::new();
    store.insert_entry(item(uuid::Uuid::from_u128(1), "t", "d")).unwrap();
    store.insert_entry(item(uuid::Uuid::from_u128(2), "u", "d")).unwrap();
    create_like_with(&mut store, 1, Some("a".to_string()), 10, 100).unwrap();
    create_like_with(&mut store, 1, Some("b".to_string()), 11, 300).unwrap();
    create_like_with(&mut store, 2, Some("x".to_string()), 12, 400).unwrap();
    create_like_with(&mut store, 1, Some("c".to_string()), 14, 200).unwrap();
    create_like_with(&mut store, 1, Some("d".to_string()), 13, 200).unwrap();
    let likes = list_likes(&store, 1).unwrap();
    let who: Vec<&str> = likes.iter().map(|l| l.who.as_deref().unwrap()).collect();
    assert_eq!(who, vec!["b", "d", "c", "a"]);
    assert_eq!(likes[0].id, "00000000-0000-0000-0000-00000000000b");
    assert_eq!(likes[0].created_at, 300);
    assert!(list_likes(&store, 3).unwrap().is_empty());
}

#[test]
fn unlike_removes_the_newest_like_of_the_entry_only() {
    let mut store = Store::new();
    store.insert_entry(item(uuid::Uuid::from_u128(1), "t", "d")).unwrap();
    store.insert_entry(item(uuid::Uuid::from_u128(2), "u", "d")).unwrap();
    create_like_with(&mut store, 1, None, 10, 100).unwrap();
    create_like_with(&mut store, 1, None, 11, 300).unwrap();
    create_like_with(&mut store, 2, None, 12, 400).unwrap();
    create_like_with(&mut store, 1, None, 13, 200).unwrap();
    delete_one_like(&mut store, 1, None).unwrap();
    let ids: Vec<u128> = store.likes().iter().map(|l| l.id).collect();
    assert_eq!(ids, vec![10, 12, 13]);
    delete_one_like(&mut store, 1, None).unwrap();
    let ids: Vec<u128> = store.likes().iter().map(|l| l.id).collect();
    assert_eq!(ids, vec![10, 12]);
    delete_one_like(&mut store, 1, Some(12)).unwrap();
    let ids: Vec<u128> = store.likes().iter().map(|l| l.id).collect();
    assert_eq!(ids, vec![10]);
    delete_one_like(&mut store, 1, Some(99)).unwrap();
    assert_eq!(store.likes().len(), 1);
    delete_one_like(&mut store, 1, None).unwrap();
    delete_one_like(&mut store, 1, None).unwrap();
    assert!(store.likes().is_empty());
}

#[test]
fn a_like_needs_an_entry_and_a_new_identifier() {
    let mut store = Store::new();
    store.insert_entry(item(uuid::Uuid::from_u128(1), "t", "d")).unwrap();
    let like = create_like_with(&mut store, 1, Some("ada".to_string()), 10, 100).unwrap();
    assert_eq!(
        like,
        Like {
            id: "00000000-0000-0000-0000-00000000000a".to_string(),
            created_at: 100,
            who: Some("ada".to_string()),
        }
    );
    assert_eq!(
        store.likes(),
        vec![LikeDB { id: 10, created_at: 100, glossary_id: 1, who: Some("ada".to_string()) }]
    );
    let e = create_like_with(&mut store, 1, None, 10, 101).unwrap_err();
    assert_eq!(e.kind, ErrorKind::Conflict);
    let e = create_like_with(&mut store, 2, None, 11, 101).unwrap_err();
    assert_eq!(e.kind, ErrorKind::Conflict);
    assert_eq!(e.status_code(), 409);
    assert_eq!(store.likes().len(), 1);
    let e = create_like(&mut store, 2, None).unwrap_err();
    assert_eq!(e.kind, ErrorKind::Conflict);
}

#[test]
fn likes_convert_to_rows_and_back() {
    let like = Like::new(Some("ada".to_string()));
    let id = uuid::Uuid::parse_str(&like.id).unwrap();
    assert_eq!(id.get_version_num(), 4);
    assert_eq!(like.id, id.hyphenated().to_string());
    let row = like.to_like_db(7);
    assert_eq!(row.id, id.as_u128());
    assert_eq!(row.glossary_id, 7);
    assert_eq!(row.created_at, like.created_at);
    assert_eq!(row.who.as_deref(), Some("ada"));
    assert_eq!(row.to_like(), like);
    assert_eq!(like.try_to_like_db(7), Some(row));
    let odd = Like { id: "not a uuid".to_string(), created_at: 0, who: None };
    assert_eq!(odd.try_to_like_db(7), None);
    let simple = Like { id: "0000000000000000000000000000002a".to_string(), created_at: 5, who: None };
    assert_eq!(simple.to_like_db(1).id, 42);
    let anonymous = Like::default();
    assert_eq!(anonymous.who, None);
    assert!(uuid::Uuid::parse_str(&anonymous.id).is_ok());
    assert!(anonymous.created_at > 0);
}
