use zaakchat::json::Json;
use zaakchat::schemas::CloudEvent;
use zaakchat::storage::Storage;
use zaakchat::text::sequence_key;

const NOW: &str = "2024-01-15T10:30:00Z";

fn text(s: &str) -> Json {
    Json::Str(s.to_string())
}

fn obj(members: Vec<(&str, Json)>) -> Json {
    Json::Object(members.into_iter().map(|(k, v)| (k.to_string(), v)).collect())
}

fn member<'a>(v: &'a Json, key: &str) -> Option<&'a Json> {
    match v {
        Json::Object(ms) => ms.iter().find(|(k, _)| k == key).map(|(_, v)| v),
        _ => None,
    }
}

fn plain_event(id: &str) -> CloudEvent {
    CloudEvent {
        specversion: "1.0".to_string(),
        id: id.to_string(),
        source: "test".to_string(),
        subject: Some("test-subject".to_string()),
        event_type: "test.event".to_string(),
        time: None,
        datacontenttype: Some("application/json".to_string()),
        dataschema: None,
        dataref: None,
        sequence: Some("1".to_string()),
        sequencetype: None,
        data: Some(obj(vec![("key", text("value"))])),
    }
}

#[test]
fn test_storage_event_round_trip() {
    let mut storage = Storage::new();
    let event = plain_event("test-event-1");
    let _seq = storage.store_event(&event).unwrap();
    let retrieved = storage.get_event("test-event-1");
    assert!(retrieved.is_some());
    assert_eq!(retrieved.unwrap().id, "test-event-1");
}

#[test]
fn test_storage_resource_round_trip() {
    let mut storage = Storage::new();
    let resource_data = obj(vec![("title", text("Test Issue")), ("status", text("open"))]);
    storage.store_resource("issue-1", "issue", &resource_data, NOW);
    let retrieved = storage.get_resource("issue-1");
    assert!(retrieved.is_some());
    assert!(matches!(member(&retrieved.unwrap(), "title"), Some(Json::Str(s)) if s == "Test Issue"));
}

#[test]
fn test_list_resources() {
    let mut storage = Storage::new();
    for i in 1..=5 {
        let resource_data = obj(vec![("title", text(&format!("Issue {}", i))), ("status", text("open"))]);
        storage.store_resource(&format!("issue-{}", i), "issue", &resource_data, NOW);
    }
    let all_resources = storage.list_resources(0, 10);
    assert_eq!(all_resources.len(), 5);
    let page1 = storage.list_resources(0, 2);
    assert_eq!(page1.len(), 2);
    let page2 = storage.list_resources(2, 2);
    assert_eq!(page2.len(), 2);
}

#[test]
fn test_delete_resource() {
    let mut storage = Storage::new();
    let resource_data = obj(vec![("title", text("Test Issue")), ("status", text("open"))]);
    storage.store_resource("issue-1", "issue", &resource_data, NOW);
    assert!(storage.get_resource("issue-1").is_some());
    storage.delete_resource("issue-1");
    assert!(storage.get_resource("issue-1").is_none());
}

#[test]
fn sequence_keys_are_zero_padded() {
    assert_eq!(sequence_key(1), "00000000000000000001");
    assert_eq!(sequence_key(42), "00000000000000000042");
    assert_eq!(sequence_key(u64::MAX), "18446744073709551615");
    assert!(sequence_key(9) < sequence_key(10));
}

#[test]
fn appended_events_get_increasing_keys() {
    let mut storage = Storage::new();
    let k1 = storage.store_event(&plain_event("a")).unwrap();
    let k2 = storage.store_event(&plain_event("b")).unwrap();
    let k3 = storage.store_event(&plain_event("c")).unwrap();
    assert_eq!(k1, "00000000000000000001");
    assert_eq!(k2, "00000000000000000002");
    assert_eq!(k3, "00000000000000000003");
    let listed = storage.list_events_after(None, 10);
    let seqs: Vec<String> = listed.iter().map(|e| e.sequence.clone().unwrap()).collect();
    assert_eq!(seqs, vec![k1.clone(), k2.clone(), k3.clone()]);
    // the sequence the client sent is replaced by the assigned one
    assert_eq!(listed[0].id, "a");
    assert!(listed[0].sequence.as_deref() != Some("1"));
    assert_eq!(listed[0].datacontenttype.as_deref(), Some("application/json"));
}

#[test]
fn listing_after_a_cursor() {
    let mut storage = Storage::new();
    for id in ["a", "b", "c", "d"] {
        storage.store_event(&plain_event(id)).unwrap();
    }
    let after = storage.list_events_after(Some("00000000000000000002".to_string()), 10);
    let ids: Vec<&str> = after.iter().map(|e| e.id.as_str()).collect();
    assert_eq!(ids, vec!["c", "d"]);
    let limited = storage.list_events_after(None, 3);
    assert_eq!(limited.len(), 3);
    assert_eq!(storage.list_events_after(None, 0).len(), 0);
    assert_eq!(storage.list_events_after(Some("99999999999999999999".to_string()), 10).len(), 0);
}

#[test]
fn listing_by_offset() {
    let mut storage = Storage::new();
    for id in ["a", "b", "c"] {
        storage.store_event(&plain_event(id)).unwrap();
    }
    let ids: Vec<String> = storage.list_events(1, 10).into_iter().map(|e| e.id).collect();
    assert_eq!(ids, vec!["b".to_string(), "c".to_string()]);
    assert_eq!(storage.list_events(0, 2).len(), 2);
    // an offset past the end starts from the beginning
    assert_eq!(storage.list_events(7, 10).len(), 3);
}

#[test]
fn get_event_finds_first_match() {
    let mut storage = Storage::new();
    storage.store_event(&plain_event("dup")).unwrap();
    storage.store_event(&plain_event("dup")).unwrap();
    let e = storage.get_event("dup").unwrap();
    assert_eq!(e.sequence.as_deref(), Some("00000000000000000001"));
    assert!(storage.get_event("missing").is_none());
}

#[test]
fn clear_restarts_numbering() {
    let mut storage = Storage::new();
    storage.store_event(&plain_event("a")).unwrap();
    storage.store_resource("r", "issue", &obj(vec![]), NOW);
    storage.store_pending_login("tok", "a@b.c", 10);
    storage.clear();
    assert_eq!(storage.event_count(), 0);
    assert_eq!(storage.resource_count(), 0);
    assert!(storage.get_and_remove_pending_login("tok").is_none());
    assert_eq!(storage.store_event(&plain_event("b")).unwrap(), "00000000000000000001");
}

#[test]
fn pending_login_is_used_once() {
    let mut storage = Storage::new();
    storage.store_pending_login("token-1", "alice@example.com", 1700000000);
    let rec = storage.get_and_remove_pending_login("token-1").unwrap();
    assert_eq!(rec.email, "alice@example.com");
    assert_eq!(rec.expires_at, 1700000000);
    assert!(storage.get_and_remove_pending_login("token-1").is_none());
}

#[test]
fn store_resource_replaces_in_place() {
    let mut storage = Storage::new();
    storage.store_resource("a", "issue", &obj(vec![("v", text("1"))]), NOW);
    storage.store_resource("b", "issue", &obj(vec![("v", text("2"))]), NOW);
    storage.store_resource("a", "task", &obj(vec![("v", text("3"))]), NOW);
    assert_eq!(storage.resource_count(), 2);
    assert_eq!(storage.get_resource_type("a").as_deref(), Some("task"));
    let listed = storage.list_resources(0, 10);
    assert_eq!(listed[0].0, "a");
    assert!(matches!(member(&listed[0].1, "v"), Some(Json::Str(s)) if s == "3"));
}

#[test]
fn resources_are_listed_by_id() {
    let mut storage = Storage::new();
    for id in ["issue-3", "issue-1", "comment-9", "issue-2"] {
        storage.store_resource(id, "issue", &obj(vec![]), NOW);
    }
    let ids: Vec<String> = storage.list_resources(0, 10).into_iter().map(|(id, _)| id).collect();
    assert_eq!(ids, vec!["comment-9", "issue-1", "issue-2", "issue-3"]);
    let page: Vec<String> = storage.list_resources(1, 2).into_iter().map(|(id, _)| id).collect();
    assert_eq!(page, vec!["issue-1", "issue-2"]);
    storage.delete_resource("issue-1");
    let ids: Vec<String> = storage.list_resources(0, 10).into_iter().map(|(id, _)| id).collect();
    assert_eq!(ids, vec!["comment-9", "issue-2", "issue-3"]);
}

#[test]
fn restored_events_keep_their_keys() {
    let mut storage = Storage::new();
    assert_eq!(storage.restore_event(&plain_event("a"), 3).unwrap(), "00000000000000000003");
    assert_eq!(storage.restore_event(&plain_event("b"), 7).unwrap(), "00000000000000000007");
    assert!(storage.restore_event(&plain_event("c"), 7).is_err());
    assert_eq!(storage.store_event(&plain_event("d")).unwrap(), "00000000000000000008");
    let seqs: Vec<String> = storage.list_events_after(None, 10).into_iter().map(|e| e.sequence.unwrap()).collect();
    assert_eq!(seqs, vec!["00000000000000000003", "00000000000000000007", "00000000000000000008"]);
}
