use glossary::order::{rank, sort};
use glossary::response::{
    json_error_handler, ApiError, DatabaseFault, ErrorKind, ErrorResp, JsonFault, ListResp,
    Message, PayloadFault,
};
use glossary::store::Store;
use glossary::text::{chars_of, contains, text_lt, trim};
use glossary::v1::glossary::{GlossaryDB, Popular};
use glossary::v1::glossary_history::{
    create_glossary_history, create_glossary_history_with, latest_author, list_glossary_history,
    GlossaryHistoryDB,
};
use glossary::v1::grouped::GroupedGlossary;
use glossary::v1::health::{
    health_check, health_report, liveness_check, readiness_check, readiness_report,
    DatabaseProbe,
};
use glossary::v1::like::LikeDB;

fn row(id: u128, term: &str) -> GlossaryDB {
    GlossaryDB {
        id,
        term: term.to_string(),
        definition: "d".to_string(),
        revision: 0,
        created_at: 1,
        updated_at: 1,
    }
}

fn record(id: u128, glossary_id: u128, created_at: i64, who: Option<&str>) -> GlossaryHistoryDB {
    GlossaryHistoryDB {
        id,
        term: "t".to_string(),
        definition: "d".to_string(),
        revision: 0,
        who: who.map(|w| w.to_string()),
        created_at,
        glossary_id,
    }
}

fn like(id: u128, glossary_id: u128) -> LikeDB {
    LikeDB { id, created_at: 1, glossary_id, who: None }
}

#[test]
fn trim_removes_white_space_at_both_ends_only() {
    assert_eq!(trim("  a b  "), "a b");
    assert_eq!(trim("\t\n\r a\u{a0}\u{2003}"), "a");
    assert_eq!(trim("a"), "a");
    assert_eq!(trim(""), "");
    assert_eq!(trim(" \n "), "");
    assert_eq!(trim("\u{200b}a"), "\u{200b}a");
    for s in ["", " x", "x ", " \u{3000}é \t", "no space", "   "] {
        assert_eq!(trim(s), s.trim());
    }
}

#[test]
fn a_text_gives_its_characters() {
    assert_eq!(chars_of("héllo"), vec!['h', 'é', 'l', 'l', 'o']);
    assert!(chars_of("").is_empty());
    assert_eq!(chars_of("日本語 text").len(), 8);
}

#[test]
fn texts_are_ordered_as_str_orders_them() {
    let words = ["", "a", "A", "ab", "abc", "b", "é", "z", "Zebra", "apple", "日本", "\u{10ffff}"];
    for a in words {
        for b in words {
            assert_eq!(text_lt(&chars_of(a), &chars_of(b)), a < b, "{:?} < {:?}", a, b);
        }
    }
    assert!(text_lt(&chars_of("pea"), &chars_of("pear")));
    assert!(!text_lt(&chars_of("pear"), &chars_of("pear")));
}

#[test]
fn contains_finds_contiguous_parts() {
    let has = |hay: &str, needle: &str| contains(&chars_of(hay), &chars_of(needle));
    assert!(has("a store of results", "store"));
    assert!(has("a store of results", ""));
    assert!(has("", ""));
    assert!(has("abc", "abc"));
    assert!(has("aab", "ab"));
    assert!(has("日本語", "本"));
    assert!(!has("abc", "abcd"));
    assert!(!has("abc", "ac"));
    assert!(!has("", "a"));
    assert!(!has("Store", "store"));
}

#[test]
fn sort_orders_rows_and_keeps_each() {
    let rows = vec![like(3, 1), like(1, 1), like(2, 1)];
    let sorted = sort(rows);
    let ids: Vec<u128> = sorted.iter().map(|l| l.id).collect();
    assert_eq!(ids, vec![1, 2, 3]);
    let mut newer = like(9, 1);
    newer.created_at = 5;
    let ranked = rank(vec![like(3, 1), newer, like(2, 1)]);
    let ids: Vec<u128> = ranked.iter().map(|l| l.id).collect();
    assert_eq!(ids, vec![9, 2, 3]);
    let tied = sort(vec![
        Popular { likes: 1, entry: row(1, "a") },
        Popular { likes: 2, entry: row(7, "b") },
        Popular { likes: 2, entry: row(3, "c") },
    ]);
    let ids: Vec<u128> = tied.iter().map(|p| p.entry.id).collect();
    assert_eq!(ids, vec![3, 7, 1]);
    assert!(sort(Vec::<LikeDB>::new()).is_empty());
}

#[test]
fn list_resp_counts_its_results() {
    let empty: ListResp<u8> = ListResp::new();
    assert!(empty.results.is_empty());
    assert_eq!(empty.count, 0);
    let empty: ListResp<String> = ListResp::default();
    assert_eq!(empty.count, 0);
    let page = ListResp::from(&["a".to_string(), "b".to_string(), "c".to_string()]);
    assert_eq!(page.results, vec!["a", "b", "c"]);
    assert_eq!(page.count, 3);
    let page: ListResp<u8> = ListResp::from(&[]);
    assert_eq!(page.count, 0);
}

#[test]
fn messages_and_error_bodies_hold_their_text() {
    assert_eq!(Message::new("deleted").message, "deleted");
    let body = ErrorResp::new("boom");
    assert_eq!(body.error, "boom");
    assert_eq!(body.to_string(), "boom");
    assert_eq!(body.status_code(), 400);
    assert_eq!(body.error_response().error, "boom");
    let e = ApiError::not_found("Record not found");
    assert_eq!(ErrorResp::from(&e).error, "Record not found");
    assert_eq!(e.to_string(), "Record not found");
}

#[test]
fn each_kind_of_failure_has_its_status() {
    let cases = [
        (ErrorKind::NotFound, 404),
        (ErrorKind::InvalidInput, 400),
        (ErrorKind::UnprocessableEntity, 422),
        (ErrorKind::Conflict, 409),
        (ErrorKind::DatabaseError, 500),
        (ErrorKind::InternalError, 500),
        (ErrorKind::UnsupportedMediaType, 415),
    ];
    for (kind, status) in cases {
        let e = ApiError::new(kind, "m");
        assert_eq!(e.kind, kind);
        assert_eq!(e.message, "m");
        assert_eq!(e.status_code(), status);
    }
    assert_eq!(ApiError::invalid_input("x").kind, ErrorKind::InvalidInput);
    assert_eq!(ApiError::conflict("x").kind, ErrorKind::Conflict);
    assert_eq!(ApiError::database_error("x").kind, ErrorKind::DatabaseError);
}

#[test]
fn database_faults_map_to_kinds() {
    let cases = [
        (DatabaseFault::NotFound, ErrorKind::NotFound, 404),
        (DatabaseFault::UniqueViolation, ErrorKind::Conflict, 409),
        (DatabaseFault::ForeignKeyViolation, ErrorKind::Conflict, 409),
        (DatabaseFault::Rejected, ErrorKind::DatabaseError, 500),
        (DatabaseFault::Other, ErrorKind::InternalError, 500),
    ];
    for (fault, kind, status) in cases {
        let e = ApiError::from_database(fault, "detail");
        assert_eq!(e.kind, kind);
        assert_eq!(e.status_code(), status);
        assert_eq!(e.message, "detail");
    }
}

#[test]
fn payload_faults_map_to_kinds() {
    let cases = [
        (PayloadFault::ContentType, 415),
        (PayloadFault::Deserialize(JsonFault::Data), 422),
        (PayloadFault::Deserialize(JsonFault::Syntax), 400),
        (PayloadFault::Deserialize(JsonFault::Eof), 400),
        (PayloadFault::Deserialize(JsonFault::Io), 400),
        (PayloadFault::Other, 400),
    ];
    for (fault, status) in cases {
        let e = json_error_handler(fault, "Content type error");
        assert_eq!(e.status_code(), status);
        assert_eq!(e.error_response().error, "Content type error");
    }
}

#[test]
fn health_reports_follow_the_probe() {
    let (code, body) = health_report(DatabaseProbe::Healthy, "now".to_string(), "1.2.3");
    assert_eq!(code, 200);
    assert_eq!(body.status, "ok");
    assert_eq!(body.database, "healthy");
    assert_eq!(body.timestamp, "now");
    assert_eq!(body.version, "1.2.3");
    let (code, body) = health_report(DatabaseProbe::QueryFailed, "now".to_string(), "1.2.3");
    assert_eq!(code, 503);
    assert_eq!(body.status, "degraded");
    assert_eq!(body.database, "unhealthy");
    let (code, body) = health_report(DatabaseProbe::Unavailable, "now".to_string(), "1.2.3");
    assert_eq!(code, 503);
    assert_eq!(body.status, "degraded");
    assert_eq!(body.database, "unavailable");

    let before = chrono::Utc::now();
    let (code, body) = health_check(DatabaseProbe::Healthy, "0.1.0");
    let after = chrono::Utc::now();
    assert_eq!(code, 200);
    let at = chrono::DateTime::parse_from_rfc3339(&body.timestamp).unwrap();
    assert!(before <= at && at <= after);
}

#[test]
fn readiness_and_liveness_reports() {
    let (code, body) = readiness_report(DatabaseProbe::Healthy, "now".to_string());
    assert_eq!(code, 200);
    assert_eq!(body.status, "ready");
    assert_eq!(body.timestamp.as_deref(), Some("now"));
    assert_eq!(body.reason, None);
    let (code, body) = readiness_report(DatabaseProbe::QueryFailed, "now".to_string());
    assert_eq!(code, 503);
    assert_eq!(body.status, "not ready");
    assert_eq!(body.timestamp, None);
    assert_eq!(body.reason.as_deref(), Some("database query failed"));
    let (code, body) = readiness_check(DatabaseProbe::Unavailable);
    assert_eq!(code, 503);
    assert_eq!(body.reason.as_deref(), Some("database connection failed"));
    let (code, body) = readiness_check(DatabaseProbe::Healthy);
    assert_eq!(code, 200);
    assert!(chrono::DateTime::parse_from_rfc3339(&body.timestamp.unwrap()).is_ok());
    let (code, body) = liveness_check();
    assert_eq!(code, 200);
    assert_eq!(body.status, "alive");
    assert!(chrono::DateTime::parse_from_rfc3339(&body.timestamp).is_ok());
}

#[test]
fn store_refuses_rows_that_break_a_constraint() {
    let mut store = Store::new();
    assert!(store.insert_entry(row(1, "a")).is_ok());
    assert_eq!(store.insert_entry(row(1, "b")).unwrap_err().kind, ErrorKind::Conflict);
    assert_eq!(store.insert_entry(row(2, "")).unwrap_err().kind, ErrorKind::InvalidInput);
    let mut negative = row(3, "c");
    negative.revision = -1;
    assert_eq!(store.insert_entry(negative).unwrap_err().kind, ErrorKind::InvalidInput);
    let mut blank = row(4, "c");
    blank.definition = String::new();
    assert!(!blank.is_valid());
    assert_eq!(store.insert_entry(blank).unwrap_err().kind, ErrorKind::InvalidInput);
    assert!(store.insert_record(record(10, 1, 1, None)));
    assert!(!store.insert_record(record(10, 1, 2, None)));
    assert!(!store.insert_record(record(11, 9, 2, None)));
    assert!(store.insert_like(like(20, 1)).is_ok());
    assert_eq!(store.insert_like(like(20, 1)).unwrap_err().kind, ErrorKind::Conflict);
    assert_eq!(store.insert_like(like(21, 9)).unwrap_err().kind, ErrorKind::Conflict);
    assert_eq!(store.replace_entry(row(9, "z")).unwrap_err().kind, ErrorKind::NotFound);
    assert_eq!(store.replace_entry(row(1, "")).unwrap_err().kind, ErrorKind::InvalidInput);
    assert!(store.replace_entry(row(1, "z")).is_ok());
    assert_eq!(store.get(1).unwrap().term, "z");
    assert!(store.get(2).is_none());
    assert!(store.has_entry(1) && !store.has_entry(2));
    assert!(store.has_record(10) && !store.has_record(11));
    assert!(store.has_like(20) && !store.has_like(21));
    assert_eq!(store.entries().len(), 1);
    assert_eq!(store.records().len(), 1);
    assert_eq!(store.likes().len(), 1);
    assert_eq!(store.likes_of(1).len(), 1);
    assert!(store.likes_of(2).is_empty());
    assert_eq!(store.history_of(1).len(), 1);
    assert_eq!(store.remove_like(21), 0);
    assert_eq!(store.remove_like(20), 1);
    assert_eq!(store.remove_entry(1), 1);
    assert!(store.records().is_empty());
}

#[test]
fn store_loads_consistent_rows_only() {
    let store = Store::load(
        vec![row(1, "a"), row(2, "b")],
        vec![record(10, 1, 1, None), record(11, 2, 1, None)],
        vec![like(20, 2)],
    )
    .unwrap();
    assert_eq!(store.entries(), vec![row(1, "a"), row(2, "b")]);
    assert_eq!(store.records().len(), 2);
    assert_eq!(store.likes(), vec![like(20, 2)]);
    let bad = [
        Store::load(vec![row(1, "a"), row(1, "b")], vec![], vec![]),
        Store::load(vec![row(1, "")], vec![], vec![]),
        Store::load(vec![row(1, "a")], vec![record(10, 2, 1, None)], vec![]),
        Store::load(vec![row(1, "a")], vec![record(10, 1, 1, None), record(10, 1, 2, None)], vec![]),
        Store::load(vec![row(1, "a")], vec![], vec![like(20, 2)]),
        Store::load(vec![row(1, "a")], vec![], vec![like(20, 1), like(20, 1)]),
    ];
    for r in bad {
        let e = r.err().unwrap();
        assert_eq!(e.kind, ErrorKind::DatabaseError);
        assert_eq!(e.status_code(), 500);
    }
    assert!(Store::load(vec![], vec![], vec![]).unwrap().entries().is_empty());
}

#[test]
fn history_is_listed_from_the_newest_record_on() {
    let mut store = Store::new();
    store.insert_entry(row(1, "a")).unwrap();
    store.insert_entry(row(2, "b")).unwrap();
    create_glossary_history_with(&mut store, 10, 100, "t".into(), "d".into(), Some("ada".into()), 0, 1);
    create_glossary_history_with(&mut store, 11, 300, "t".into(), "d".into(), None, 1, 1);
    create_glossary_history_with(&mut store, 12, 200, "t".into(), "d".into(), Some("bob".into()), 2, 1);
    create_glossary_history_with(&mut store, 13, 900, "t".into(), "d".into(), Some("eve".into()), 0, 2);
    create_glossary_history_with(&mut store, 13, 950, "t".into(), "d".into(), Some("dup".into()), 0, 1);
    create_glossary_history_with(&mut store, 14, 950, "t".into(), "d".into(), Some("orphan".into()), 0, 3);
    let ids: Vec<u128> = list_glossary_history(&store, 1).unwrap().iter().map(|h| h.id).collect();
    assert_eq!(ids, vec![11, 12, 10]);
    assert_eq!(latest_author(&store, 1), None);
    assert_eq!(latest_author(&store, 2).as_deref(), Some("eve"));
    assert_eq!(latest_author(&store, 3), None);
    assert_eq!(store.records().len(), 4);
    create_glossary_history(&mut store, "t".into(), "d".into(), Some("zed".into()), 3, 1);
    assert_eq!(latest_author(&store, 1).as_deref(), Some("zed"));
    let newest = &list_glossary_history(&store, 1).unwrap()[0];
    assert_eq!(newest.revision, 3);
    assert_eq!(uuid::Uuid::from_u128(newest.id).get_version_num(), 4);
    create_glossary_history(&mut store, "t".into(), "d".into(), None, 0, 77);
    assert_eq!(store.records().len(), 5);
}

#[test]
fn grouped_glossary_keeps_one_group_for_each_key() {
    let mut groups = GroupedGlossary::new();
    assert!(groups.keys().is_empty());
    assert!(groups.get("A").is_none());
    groups.add("A".to_string(), row(1, "apple").to_glossary());
    groups.add("B".to_string(), row(2, "bee").to_glossary());
    groups.add("A".to_string(), row(3, "ant").to_glossary());
    assert_eq!(groups.keys(), vec!["A".to_string(), "B".to_string()]);
    let a: Vec<&str> = groups.get("A").unwrap().iter().map(|g| g.term.as_str()).collect();
    assert_eq!(a, vec!["apple", "ant"]);
    assert_eq!(groups.get("B").unwrap().len(), 1);
    let list = groups.into_groups();
    assert_eq!(list.len(), 2);
    assert_eq!(list[0].key, "A");
    assert_eq!(list[0].entries.len(), 2);
}
