use zaakchat::handlers::{default_limit, default_offset, filter_events_by_topic, list_resources, wants_json, ListParams};
use zaakchat::json::{apply_json_merge_patch, Json};
use zaakchat::processor::{extract_resource_type_from_schema, extract_resource_type_from_subject};
use zaakchat::schemas::CloudEvent;
use zaakchat::storage::Storage;

const NOW: &str = "2024-01-15T10:30:00Z";

fn text(s: &str) -> Json {
    Json::Str(s.to_string())
}

fn num(s: &str) -> Json {
    Json::Number(s.to_string())
}

fn obj(members: Vec<(&str, Json)>) -> Json {
    Json::Object(members.into_iter().map(|(k, v)| (k.to_string(), v)).collect())
}

fn member<'a>(v: &'a Json, key: &str) -> Option<&'a Json> {
    match v {
        Json::Object(ms) => ms.iter().find(|(k, _)| k == key).map(|(_, v)| v),
        _ => None,
    }
}

fn event(id: &str, subject: Option<&str>, event_type: &str) -> CloudEvent {
    CloudEvent {
        specversion: "1.0".to_string(),
        id: id.to_string(),
        source: "test".to_string(),
        subject: subject.map(|s| s.to_string()),
        event_type: event_type.to_string(),
        time: None,
        datacontenttype: None,
        dataschema: None,
        dataref: None,
        sequence: None,
        sequencetype: None,
        data: None,
    }
}

#[test]
fn test_apply_json_merge_patch() {
    let mut target = obj(vec![
        ("title", text("Old Title")),
        ("status", text("open")),
        ("nested", obj(vec![("a", num("1")), ("b", num("2"))])),
    ]);
    let patch = obj(vec![
        ("title", text("New Title")),
        ("status", Json::Null),
        ("nested", obj(vec![("b", num("3")), ("c", num("4"))])),
    ]);

    apply_json_merge_patch(&mut target, &patch);

    assert!(matches!(member(&target, "title"), Some(Json::Str(s)) if s == "New Title"));
    assert!(member(&target, "status").is_none());
    let nested = member(&target, "nested").unwrap();
    assert!(matches!(member(nested, "a"), Some(Json::Number(n)) if n == "1"));
    assert!(matches!(member(nested, "b"), Some(Json::Number(n)) if n == "3"));
    assert!(matches!(member(nested, "c"), Some(Json::Number(n)) if n == "4"));
}

#[test]
fn test_extract_resource_type_from_schema() {
    assert_eq!(extract_resource_type_from_schema("http://example.com/Issue"), "issue");
    assert_eq!(extract_resource_type_from_schema("http://example.com/Comment"), "comment");
    assert_eq!(extract_resource_type_from_schema("http://example.com/Task"), "task");
}

#[test]
fn test_extract_resource_type_from_subject() {
    assert_eq!(extract_resource_type_from_subject("issue/123"), "issue");
    assert_eq!(extract_resource_type_from_subject("comment/456"), "comment");
    assert_eq!(extract_resource_type_from_subject("unknown/789"), "unknown");
}

#[test]
fn schema_type_covers_planning_document_and_unknown() {
    assert_eq!(extract_resource_type_from_schema("http://localhost:8000/schemas/Planning"), "planning");
    assert_eq!(extract_resource_type_from_schema("http://localhost:8000/schemas/Document"), "document");
    assert_eq!(extract_resource_type_from_schema("http://localhost:8000/schemas/JSONCommit"), "unknown");
    assert_eq!(extract_resource_type_from_subject("planning-7"), "planning");
    assert_eq!(extract_resource_type_from_subject("document-7"), "document");
    assert_eq!(extract_resource_type_from_subject("task-7"), "task");
}

#[test]
fn paging_defaults() {
    assert_eq!(default_offset(), 0);
    assert_eq!(default_limit(), 10000);
}

#[test]
fn json_format_is_case_insensitive() {
    assert!(wants_json(&Some("json".to_string())));
    assert!(wants_json(&Some("JSON".to_string())));
    assert!(wants_json(&Some("Json".to_string())));
    assert!(!wants_json(&Some("jsonl".to_string())));
    assert!(!wants_json(&Some("sse".to_string())));
    assert!(!wants_json(&None));
}

#[test]
fn topic_filter_matches_subject_or_type() {
    let events = vec![
        event("e1", Some("issue-1"), "json.commit"),
        event("e2", Some("issue-2"), "json.commit"),
        event("e3", None, "issue.viewed"),
        event("e4", None, "other"),
    ];
    let kept = filter_events_by_topic(events, &Some("issue-1".to_string()));
    assert_eq!(kept.len(), 1);
    assert_eq!(kept[0].id, "e1");

    let events = vec![
        event("e1", Some("issue-1"), "json.commit"),
        event("e3", None, "issue.viewed"),
        event("e4", None, "other"),
    ];
    let kept = filter_events_by_topic(events, &Some("issue".to_string()));
    let ids: Vec<&str> = kept.iter().map(|e| e.id.as_str()).collect();
    assert_eq!(ids, vec!["e1", "e3"]);

    let events = vec![event("e1", None, "a"), event("e2", None, "b")];
    assert_eq!(filter_events_by_topic(events, &None).len(), 2);
}

#[test]
fn resource_listing_guesses_types() {
    let mut storage = Storage::new();
    storage.store_resource("r1", "issue", &obj(vec![("title", text("T"))]), NOW);
    storage.store_resource("r2", "comment", &obj(vec![("content", text("C"))]), NOW);
    storage.store_resource("r3", "task", &obj(vec![("cta", text("Do"))]), NOW);
    storage.store_resource("r4", "planning", &obj(vec![("moments", Json::Array(vec![]))]), NOW);
    storage.store_resource("r5", "document", &obj(vec![("url", text("http://x"))]), NOW);
    let listed = list_resources(&storage, ListParams { offset: 0, limit: 10 });
    let types: Vec<&str> = listed.iter().map(|r| r.resource_type.as_str()).collect();
    assert_eq!(types, vec!["issue", "comment", "task", "planning", "unknown"]);
    let page = list_resources(&storage, ListParams { offset: 3, limit: 10 });
    assert_eq!(page.len(), 2);
    assert_eq!(page[0].id, "r4");
}
