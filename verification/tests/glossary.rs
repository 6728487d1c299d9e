use glossary::response::{ApiError, ErrorKind};
use glossary::store::Store;
use glossary::v1::glossary::{
    create, create_glossary, create_glossary_with, delete, delete_glossary, get, get_glossary,
    list, list_glossary, list_popular, list_popular_glossary, search, search_glossary, update,
    update_glossary, update_glossary_with, Glossary, GlossaryDB, GlossaryRequest, PopularQuery,
    SearchQuery,
};
use glossary::v1::glossary_history::{list_glossary_history, GlossaryHistoryDB};
use glossary::v1::like::{create_like, create_like_with, LikeDB};

fn entry(id: u128, term: &str, definition: &str) -> GlossaryDB {
    GlossaryDB {
        id,
        term: term.to_string(),
        definition: definition.to_string(),
        revision: 1,
        created_at: 1_700_000_000_000_000,
        updated_at: 1_700_000_000_000_000,
    }
}

fn request(term: &str, definition: &str) -> GlossaryRequest {
    GlossaryRequest { term: Some(term.to_string()), definition: Some(definition.to_string()) }
}

fn store_with(rows: Vec<GlossaryDB>) -> Store {
    let mut store = Store::new();
    for row in rows {
        store.insert_entry(row).expect("could not insert glossary");
    }
    store
}

fn kind_of<T>(r: Result<T, ApiError>) -> ErrorKind {
    match r {
        Ok(_) => panic!("the call succeeded"),
        Err(e) => e.kind,
    }
}

#[test]
fn test_index_get() {
    assert_eq!(glossary::index(), "Hello world!");
}

#[test]
fn test_ping() {
    assert_eq!(glossary::ping(), "pong");
}

#[test]
fn test_list_glossary() {
    let store = store_with(vec![
        entry(1, "test_term_1", "test_definition_1"),
        entry(2, "test_term_2", "test_definition_2"),
    ]);
    let response = list(&store).unwrap();
    assert_eq!(response.keys().len(), 1);
    let values = response.get("T").unwrap();
    assert_eq!(values.len(), 2);
    assert_eq!(values[0].term, "test_term_1");
    assert_eq!(values[1].term, "test_term_2");
}

#[test]
fn test_get_glossary() {
    let glossary_id = uuid::Uuid::new_v4();
    let store = store_with(vec![entry(glossary_id.as_u128(), "test_term_1", "test_definition_1")]);
    let resp = get(&store, &glossary_id.to_string()).unwrap();
    assert_eq!(resp.term, "test_term_1");
    assert_eq!(resp.definition, "test_definition_1");
    assert_eq!(resp.revision, 1);
}

#[test]
fn test_get_glossary_not_exists() {
    let store = Store::new();
    let non_exists_id = uuid::Uuid::new_v4();
    let resp = get(&store, &non_exists_id.to_string());
    let e = resp.unwrap_err();
    assert_eq!(e.kind, ErrorKind::NotFound);
    assert_eq!(e.status_code(), 404);
}

#[test]
fn test_get_glossary_invalid_id() {
    let store = Store::new();
    let e = get(&store, "abc1234").unwrap_err();
    assert_eq!(e.status_code(), 400);
    assert_eq!(e.error_response().error, "Invalid glossary ID format");
}

#[test]
fn test_create_glossary() {
    let mut store = Store::new();
    let resp = create(&mut store, request("test_term_1", "test_definition_1"), None).unwrap();
    assert_eq!(resp.term, "test_term_1");
    assert_eq!(resp.definition, "test_definition_1");
}

#[test]
fn test_create_glossary_invalid_json() {
    let mut store = Store::new();
    let glossary_req = GlossaryRequest { term: None, definition: None };
    let e = create(&mut store, glossary_req, None).unwrap_err();
    assert_eq!(e.status_code(), 400);
    assert!(store.entries().is_empty());
}

#[test]
fn test_create_glossary_then_get() {
    let mut store = Store::new();
    let response_of_create =
        create(&mut store, request("test_term_1", "test_definition_1"), None).unwrap();
    let response_of_get = get(&store, &response_of_create.id).unwrap();
    assert_eq!(response_of_create, response_of_get);
}

#[test]
fn test_create_glossary_then_update() {
    let mut store = Store::new();
    let response_of_create =
        create(&mut store, request("test_term_1", "test_definition_1"), None).unwrap();
    assert_eq!(response_of_create.term, "test_term_1");
    assert_eq!(response_of_create.definition, "test_definition_1");
    assert_eq!(response_of_create.revision, 0);

    let response_of_update = update(
        &mut store,
        &response_of_create.id,
        request("test_term_1_updated", "test_definition_1_updated"),
        None,
    )
    .unwrap();
    assert_eq!(response_of_update.term, "test_term_1_updated");
    assert_eq!(response_of_update.definition, "test_definition_1_updated");
    assert_eq!(response_of_update.revision, 1);
}

#[test]
fn test_create_glossary_then_delete() {
    let mut store = Store::new();
    let response_of_create =
        create(&mut store, request("test_term_1", "test_definition_1"), None).unwrap();
    assert_eq!(response_of_create.term, "test_term_1");
    assert_eq!(response_of_create.definition, "test_definition_1");
    assert_eq!(response_of_create.revision, 0);

    let response_of_delete = delete(&mut store, &response_of_create.id).unwrap();
    assert_eq!(response_of_delete.message, "deleted");

    let e = get(&store, &response_of_create.id).unwrap_err();
    println!("{:?}", e.status_code());
    assert!(400 <= e.status_code() && e.status_code() < 500);
    assert_eq!(e.status_code(), 404);
}

#[test]
fn test_list_popular_glossaries_empty() {
    let store = store_with(vec![entry(1, "test_term_1", "test_definition_1")]);
    let response_of_list_popular = list_popular(&store, &PopularQuery { limit: None }).unwrap();
    assert!(response_of_list_popular.is_empty());
}

#[test]
fn test_list_popular_glossaries_with_inserted_glossaries() {
    let mut store = Store::new();
    let response_of_create =
        create(&mut store, request("test_term_1", "test_definition_1"), None).unwrap();
    assert_eq!(response_of_create.term, "test_term_1");
    assert_eq!(response_of_create.definition, "test_definition_1");
    assert_eq!(response_of_create.revision, 0);

    let glossary_id = uuid::Uuid::parse_str(&response_of_create.id).unwrap();
    let _ = create_like(&mut store, glossary_id.as_u128(), None);

    let response_of_list_popular = list_popular(&store, &PopularQuery { limit: None }).unwrap();
    assert_eq!(response_of_list_popular.len(), 1);
    assert_eq!(response_of_list_popular[0].id, response_of_create.id);
    assert!(response_of_list_popular[0].likes.is_empty());
    assert_eq!(response_of_list_popular[0].likes_count, 0);
}

#[test]
fn cache_scenario_runs_from_create_to_not_found() {
    let mut store = Store::new();
    let created = create(
        &mut store,
        GlossaryRequest::from_raw(Some("Cache"), Some("A store of precomputed results")),
        Some("ada@example.org".to_string()),
    )
    .unwrap();
    assert_eq!(created.term, "Cache");
    assert_eq!(created.revision, 0);
    assert_eq!(created.who.as_deref(), Some("ada@example.org"));

    let got = get(&store, &created.id).unwrap();
    assert_eq!(got.term, created.term);
    assert_eq!(got.definition, created.definition);
    assert_eq!(got.revision, created.revision);
    assert_eq!(got, created);

    let updated = update(
        &mut store,
        &created.id,
        GlossaryRequest::from_raw(Some("Cache"), Some("Updated def")),
        None,
    )
    .unwrap();
    assert_eq!(updated.revision, 1);
    assert_eq!(updated.definition, "Updated def");
    assert_eq!(updated.created_at, created.created_at);

    assert_eq!(delete(&mut store, &created.id).unwrap().message, "deleted");
    assert_eq!(get(&store, &created.id).unwrap_err().status_code(), 404);
}

#[test]
fn created_entry_is_stored_with_revision_zero_and_a_history_record() {
    let mut store = Store::new();
    let row = create_glossary_with(
        &mut store,
        request("Cache", "A store"),
        Some("ada".to_string()),
        7,
        1000,
        70,
        1001,
    )
    .unwrap();
    assert_eq!(
        row,
        GlossaryDB {
            id: 7,
            term: "Cache".to_string(),
            definition: "A store".to_string(),
            revision: 0,
            created_at: 1000,
            updated_at: 1000,
        }
    );
    assert_eq!(store.entries(), vec![row]);
    assert_eq!(
        store.records(),
        vec![GlossaryHistoryDB {
            id: 70,
            term: "Cache".to_string(),
            definition: "A store".to_string(),
            revision: 0,
            who: Some("ada".to_string()),
            created_at: 1001,
            glossary_id: 7,
        }]
    );
    assert!(store.likes().is_empty());
}

#[test]
fn create_refuses_an_identifier_that_is_taken() {
    let mut store = store_with(vec![entry(7, "a", "b")]);
    let r = create_glossary_with(&mut store, request("Cache", "A store"), None, 7, 1, 70, 1);
    assert_eq!(kind_of(r), ErrorKind::Conflict);
    assert_eq!(store.entries(), vec![entry(7, "a", "b")]);
    assert!(store.records().is_empty());
}

#[test]
fn create_refuses_requests_that_are_not_valid() {
    let mut store = Store::new();
    let long = "x".repeat(256);
    let cases = vec![
        GlossaryRequest { term: None, definition: Some("d".to_string()) },
        GlossaryRequest { term: Some("t".to_string()), definition: None },
        request("", "d"),
        request("t", ""),
        request(&long, "d"),
    ];
    for case in cases {
        let r = create_glossary(&mut store, case, None);
        let e = r.unwrap_err();
        assert_eq!(e.kind, ErrorKind::InvalidInput);
        assert_eq!(e.status_code(), 400);
    }
    assert!(store.entries().is_empty());
    let longest = "é".repeat(255);
    assert!(create_glossary(&mut store, request(&longest, "d"), None).is_ok());
}

#[test]
fn update_raises_the_revision_by_one_each_time() {
    let mut store = Store::new();
    let row = create_glossary_with(&mut store, request("a", "b"), None, 1, 10, 100, 10).unwrap();
    assert_eq!(row.revision, 0);
    for n in 1..=5 {
        let value = Glossary::with_id(99, 0, format!("term {}", n), format!("def {}", n));
        let row = update_glossary_with(
            &mut store,
            1,
            value,
            Some(format!("user {}", n)),
            10 + n as i64,
            100 + n as u128,
            10 + n as i64,
        )
        .unwrap();
        assert_eq!(row.revision, n);
        assert_eq!(row.id, 1);
        assert_eq!(row.created_at, 10);
        assert_eq!(row.updated_at, 10 + n as i64);
        assert_eq!(row.term, format!("term {}", n));
        assert_eq!(get_glossary(&store, 1).unwrap(), row);
    }
    let history = list_glossary_history(&store, 1).unwrap();
    let revisions: Vec<i32> = history.iter().map(|h| h.revision).collect();
    assert_eq!(revisions, vec![5, 4, 3, 2, 1, 0]);
    assert_eq!(history[0].who.as_deref(), Some("user 5"));
    assert_eq!(history[0].term, "term 5");
    assert_eq!(history[5].who, None);
}

#[test]
fn update_reports_why_an_entry_cannot_be_rewritten() {
    let mut store = store_with(vec![entry(1, "a", "b")]);
    let value = Glossary::with_id(0, 0, "t".to_string(), "d".to_string());
    assert_eq!(kind_of(update_glossary(&mut store, 2, value, None)), ErrorKind::NotFound);
    let value = Glossary::with_id(0, 0, "".to_string(), "d".to_string());
    assert_eq!(kind_of(update_glossary(&mut store, 1, value, None)), ErrorKind::InvalidInput);
    let value = Glossary::with_id(0, 0, "t".to_string(), "".to_string());
    assert_eq!(kind_of(update_glossary(&mut store, 1, value, None)), ErrorKind::InvalidInput);
    assert_eq!(store.entries(), vec![entry(1, "a", "b")]);
    assert!(store.records().is_empty());

    let mut last = entry(3, "a", "b");
    last.revision = i32::MAX;
    let mut store = store_with(vec![last]);
    let value = Glossary::with_id(0, 0, "t".to_string(), "d".to_string());
    let e = update_glossary(&mut store, 3, value, None).unwrap_err();
    assert_eq!(e.kind, ErrorKind::DatabaseError);
    assert_eq!(e.status_code(), 500);
    assert_eq!(get_glossary(&store, 3).unwrap().revision, i32::MAX);
}

#[test]
fn update_handler_checks_the_request_then_the_path_then_the_entry() {
    let mut store = Store::new();
    let id = uuid::Uuid::new_v4().to_string();
    let e = update(&mut store, "nonsense", request("", "d"), None).unwrap_err();
    assert_eq!(e.kind, ErrorKind::InvalidInput);
    let e = update(&mut store, "nonsense", request("t", "d"), None).unwrap_err();
    assert_eq!(e.kind, ErrorKind::InvalidInput);
    assert_eq!(e.message, "Invalid glossary ID format");
    let e = update(&mut store, &id, request("t", "d"), None).unwrap_err();
    assert_eq!(e.kind, ErrorKind::NotFound);
}

#[test]
fn delete_removes_history_and_likes_and_is_idempotent() {
    let mut store = Store::new();
    create_glossary_with(&mut store, request("a", "b"), None, 1, 10, 100, 10).unwrap();
    create_glossary_with(&mut store, request("c", "d"), None, 2, 10, 200, 10).unwrap();
    create_like_with(&mut store, 1, None, 1000, 20).unwrap();
    create_like_with(&mut store, 2, None, 2000, 20).unwrap();
    assert_eq!(delete_glossary(&mut store, 1).unwrap(), 1);
    assert_eq!(kind_of(get_glossary(&store, 1)), ErrorKind::NotFound);
    let ids: Vec<u128> = store.entries().iter().map(|e| e.id).collect();
    assert_eq!(ids, vec![2]);
    let ids: Vec<u128> = store.records().iter().map(|h| h.glossary_id).collect();
    assert_eq!(ids, vec![2]);
    let likes: Vec<LikeDB> = store.likes();
    assert_eq!(likes.len(), 1);
    assert_eq!(likes[0].glossary_id, 2);
    assert_eq!(delete_glossary(&mut store, 1).unwrap(), 0);
    assert_eq!(store.entries().len(), 1);
    assert_eq!(delete(&mut store, &uuid::Uuid::new_v4().to_string()).unwrap().message, "deleted");
    assert_eq!(delete(&mut store, "x").unwrap_err().status_code(), 400);
}

#[test]
fn list_is_ordered_by_term_and_then_by_identifier() {
    let store = store_with(vec![
        entry(5, "pear", "d"),
        entry(4, "Zebra", "d"),
        entry(3, "apple", "d"),
        entry(2, "pear", "d"),
        entry(1, "pea", "d"),
        entry(6, "éclair", "d"),
    ]);
    let rows = list_glossary(&store).unwrap();
    let order: Vec<(String, u128)> = rows.iter().map(|r| (r.term.clone(), r.id)).collect();
    assert_eq!(
        order,
        vec![
            ("Zebra".to_string(), 4),
            ("apple".to_string(), 3),
            ("pea".to_string(), 1),
            ("pear".to_string(), 2),
            ("pear".to_string(), 5),
            ("éclair".to_string(), 6),
        ]
    );
    let mut terms: Vec<String> = store.entries().iter().map(|r| r.term.clone()).collect();
    terms.sort();
    let listed: Vec<String> = rows.iter().map(|r| r.term.clone()).collect();
    assert_eq!(listed, terms);
}

#[test]
fn list_groups_by_the_upper_case_first_character() {
    let mut store = Store::new();
    create_glossary_with(&mut store, request("tree", "d"), Some("ada".to_string()), 1, 1, 10, 1)
        .unwrap();
    create_glossary_with(&mut store, request("Trie", "d"), None, 2, 1, 20, 1).unwrap();
    create_glossary_with(&mut store, request("heap", "d"), None, 3, 1, 30, 1).unwrap();
    create_glossary_with(&mut store, request("ßtraße", "d"), None, 4, 1, 40, 1).unwrap();
    create_like_with(&mut store, 1, Some("bob".to_string()), 100, 5).unwrap();
    create_like_with(&mut store, 1, None, 101, 6).unwrap();
    let groups = list(&store).unwrap();
    let mut keys = groups.keys();
    keys.sort();
    assert_eq!(keys, vec!["H".to_string(), "SS".to_string(), "T".to_string()]);
    assert!(groups.get("t").is_none());
    let t = groups.get("T").unwrap();
    let terms: Vec<&str> = t.iter().map(|g| g.term.as_str()).collect();
    assert_eq!(terms, vec!["Trie", "tree"]);
    assert_eq!(t[1].likes_count, 2);
    assert_eq!(t[1].likes.len(), 2);
    assert_eq!(t[1].likes[0].created_at, 6);
    assert_eq!(t[1].likes[1].who.as_deref(), Some("bob"));
    assert_eq!(t[1].who.as_deref(), Some("ada"));
    assert_eq!(t[0].who.as_deref(), Some(""));
    assert_eq!(t[0].likes_count, 0);
    assert_eq!(groups.into_groups().len(), 3);
}

#[test]
fn search_matches_term_or_definition_whatever_the_case() {
    let store = store_with(vec![
        entry(1, "Cache", "A store of precomputed results"),
        entry(2, "Heap", "A tree in an array; see also CACHE lines"),
        entry(3, "Trie", "A tree of prefixes"),
        entry(4, "cachet", "prestige"),
    ]);
    let found = search_glossary(&store, "cAcHe").unwrap();
    let ids: Vec<u128> = found.iter().map(|r| r.id).collect();
    assert_eq!(ids, vec![1, 2, 4]);
    let found = search_glossary(&store, "TREE").unwrap();
    let ids: Vec<u128> = found.iter().map(|r| r.id).collect();
    assert_eq!(ids, vec![2, 3]);
    assert!(search_glossary(&store, "absent").unwrap().is_empty());
    let found = search_glossary(&store, "%").unwrap();
    assert!(found.is_empty());
    let page = search(&store, &SearchQuery { q: "cache".to_string() }).unwrap();
    assert_eq!(page.count, 3);
    assert_eq!(page.results.len(), 3);
    assert_eq!(page.results[0].term, "Cache");
    assert_eq!(page.results[0].who, None);
}

#[test]
fn search_refuses_a_blank_query() {
    let store = store_with(vec![entry(1, "Cache", "A store")]);
    for q in ["", " ", "\t\n", "\u{a0}\u{2003}"] {
        let e = search(&store, &SearchQuery { q: q.to_string() }).unwrap_err();
        assert_eq!(e.kind, ErrorKind::InvalidInput);
        assert_eq!(e.status_code(), 400);
        assert_eq!(e.message, "Search query cannot be empty");
    }
    assert_eq!(search(&store, &SearchQuery { q: " a ".to_string() }).unwrap().count, 0);
    assert_eq!(search(&store, &SearchQuery { q: "a".to_string() }).unwrap().count, 1);
}

#[test]
fn search_results_carry_the_latest_author() {
    let mut store = Store::new();
    create_glossary_with(&mut store, request("Cache", "d"), Some("ada".to_string()), 1, 1, 10, 1)
        .unwrap();
    let value = Glossary::with_id(0, 0, "Cache".to_string(), "e".to_string());
    update_glossary_with(&mut store, 1, value, Some("bob".to_string()), 2, 11, 2).unwrap();
    let page = search(&store, &SearchQuery { q: "cache".to_string() }).unwrap();
    assert_eq!(page.results[0].who.as_deref(), Some("bob"));
    assert_eq!(page.results[0].revision, 1);
}

#[test]
fn popular_ranks_by_likes_then_by_identifier_and_cuts_at_the_limit() {
    let mut store = store_with(vec![
        entry(1, "a", "d"),
        entry(2, "b", "d"),
        entry(3, "c", "d"),
        entry(4, "d", "d"),
        entry(5, "e", "d"),
    ]);
    let mut like_id = 100;
    for (glossary_id, n) in [(5u128, 2), (3, 3), (2, 2), (1, 1)] {
        for _ in 0..n {
            like_id += 1;
            create_like_with(&mut store, glossary_id, None, like_id, 1).unwrap();
        }
    }
    let ids = |limit: Option<u8>| -> Vec<String> {
        list_popular_glossary(&store, limit).unwrap().into_iter().map(|g| g.term).collect()
    };
    assert_eq!(ids(None), vec!["c", "b", "e", "a"]);
    assert_eq!(ids(Some(255)), vec!["c", "b", "e", "a"]);
    assert_eq!(ids(Some(2)), vec!["c", "b"]);
    assert_eq!(ids(Some(1)), vec!["c"]);
    assert!(ids(Some(0)).is_empty());
}

#[test]
fn popular_defaults_to_ten_entries() {
    let mut store = Store::new();
    for id in 1..=12u128 {
        store.insert_entry(entry(id, &format!("term {:02}", id), "d")).unwrap();
        create_like_with(&mut store, id, None, 100 + id, 1).unwrap();
    }
    assert_eq!(list_popular_glossary(&store, None).unwrap().len(), 10);
    assert_eq!(list_popular_glossary(&store, Some(11)).unwrap().len(), 11);
    assert_eq!(list_popular_glossary(&store, Some(200)).unwrap().len(), 12);
}

#[test]
fn request_fields_are_trimmed_and_sanitised() {
    let r = GlossaryRequest::from_raw(
        Some("  XSS<script>attack</script> \n"),
        Some("\t<b>bold</b> and <img src=x onerror=alert(1)>"),
    );
    assert_eq!(r.term.as_deref(), Some("XSS"));
    assert_eq!(r.definition.as_deref(), Some("<b>bold</b> and <img src=\"x\">"));
    let r = GlossaryRequest::from_raw(None, Some("   "));
    assert_eq!(r.term, None);
    assert_eq!(r.definition.as_deref(), Some(""));
    assert!(r.validate().is_err());
    assert_eq!(
        glossary::v1::glossary::cleanup_string(" <!-- c -->x "),
        Some("x".to_string())
    );
}

#[test]
fn request_without_definition_gives_an_empty_one() {
    let r = GlossaryRequest { term: Some("t".to_string()), definition: None };
    let g = r.to_glossary().unwrap();
    assert_eq!(g.term, "t");
    assert_eq!(g.definition, "");
    assert_eq!(g.revision, 0);
    assert_eq!(g.created_at, g.updated_at);
    assert!(GlossaryRequest { term: None, definition: Some("d".to_string()) }
        .to_glossary()
        .is_none());
}

#[test]
fn new_entries_get_a_random_identifier_and_the_current_time() {
    let before = chrono::Utc::now().timestamp_micros();
    let a = Glossary::new("t".to_string(), "d".to_string());
    let b = Glossary::new("t".to_string(), "d".to_string());
    let after = chrono::Utc::now().timestamp_micros();
    assert_ne!(a.id, b.id);
    let parsed = uuid::Uuid::parse_str(&a.id).unwrap();
    assert_eq!(parsed.get_version_num(), 4);
    assert_eq!(a.id.len(), 36);
    assert_eq!(a.id.as_bytes()[14], b'4');
    assert!(before <= a.created_at && a.created_at <= after);
    assert_eq!(a.created_at, a.updated_at);
    assert!(a.likes.is_empty());
    assert_eq!(a.likes_count, 0);
    assert_eq!(a.who, None);
    let row = a.to_glossary_db();
    assert_ne!(uuid::Uuid::from_u128(row.id).to_string(), a.id);
    assert_eq!(row.term, "t");
    assert_eq!(row.created_at, a.created_at);
    assert_eq!(a.to_glossary_db_with_id(9).id, 9);
}

#[test]
fn rows_are_shown_with_their_identifier_in_hyphenated_form() {
    let row = entry(0xa1a2a3a4_b1b2_c1c2_d1d2_d3d4d5d6d7d8, "t", "d");
    let g = row.to_glossary();
    assert_eq!(g.id, "a1a2a3a4-b1b2-c1c2-d1d2-d3d4d5d6d7d8");
    assert_eq!(g.term, "t");
    assert_eq!(g.revision, 1);
    assert_eq!(g.who, None);
    assert_eq!(entry(0, "t", "d").to_glossary().id, "00000000-0000-0000-0000-000000000000");
    assert_eq!(
        entry(u128::MAX, "t", "d").to_glossary().id,
        "ffffffff-ffff-ffff-ffff-ffffffffffff"
    );
    let g = row.to_glossary_with_who(Some("ada".to_string()));
    assert_eq!(g.who.as_deref(), Some("ada"));
    let g = g.add_who("bob".to_string());
    assert_eq!(g.who.as_deref(), Some("bob"));
    assert_eq!(g.clone(), g);
}

#[test]
fn add_likes_replaces_the_likes_and_adds_to_the_count() {
    let g = entry(1, "t", "d").to_glossary();
    let likes = vec![
        glossary::v1::like::Like::with_id(1, 1, None),
        glossary::v1::like::Like::with_id(2, 2, None),
    ];
    let g = g.add_likes(likes.clone());
    assert_eq!(g.likes_count, 2);
    assert_eq!(g.likes, likes);
    let g = g.add_likes(vec![glossary::v1::like::Like::with_id(3, 3, None)]);
    assert_eq!(g.likes_count, 3);
    assert_eq!(g.likes.len(), 1);
}

#[test]
fn get_shows_the_author_of_the_newest_history_record() {
    let mut store = Store::new();
    let id = uuid::Uuid::new_v4();
    create_glossary_with(
        &mut store,
        request("t", "d"),
        Some("ada".to_string()),
        id.as_u128(),
        1,
        10,
        1,
    )
    .unwrap();
    assert_eq!(get(&store, &id.to_string()).unwrap().who.as_deref(), Some("ada"));
    let value = Glossary::with_id(0, 0, "t".to_string(), "e".to_string());
    update_glossary_with(&mut store, id.as_u128(), value, None, 2, 11, 2).unwrap();
    assert_eq!(get(&store, &id.to_string()).unwrap().who, None);
    let upper = id.to_string().to_uppercase();
    assert_eq!(get(&store, &upper).unwrap().definition, "e");
    let braced = format!("{{{}}}", id);
    assert_eq!(get(&store, &braced).unwrap().definition, "e");
    let row = get_glossary(&store, id.as_u128()).unwrap();
    assert_eq!(row.to_glossary_with_who_from_db(&store).who, None);
}
