use zaakchat::authz::{apply_authorization_filter, authorized_topics, build_index_payload, is_authorized};
use zaakchat::json::Json;
use zaakchat::processor::{self, HandleError, IndexAction, ProcessError};
use zaakchat::schemas::CloudEvent;
use zaakchat::search::{hydrate, visible_results};
use zaakchat::storage::Storage;
use zaakchat::subscription::{Subscription, SubscriptionState};

const NOW: &str = "2024-01-15T10:30:00Z";

fn handle_event(storage: &mut Storage, event: CloudEvent) -> Result<(CloudEvent, Vec<IndexAction>), HandleError> {
    processor::handle_event(storage, event, NOW)
}

fn process_event(storage: &mut Storage, event: &CloudEvent) -> Result<Vec<IndexAction>, ProcessError> {
    processor::process_event(storage, event, NOW)
}

fn rebuild_from_log(storage: &mut Storage) -> Vec<IndexAction> {
    processor::rebuild_from_log(storage, NOW)
}

fn text(s: &str) -> Json {
    Json::Str(s.to_string())
}

fn obj(members: Vec<(&str, Json)>) -> Json {
    Json::Object(members.into_iter().map(|(k, v)| (k.to_string(), v)).collect())
}

fn list(items: Vec<&str>) -> Json {
    Json::Array(items.into_iter().map(text).collect())
}

fn member<'a>(v: &'a Json, key: &str) -> Option<&'a Json> {
    match v {
        Json::Object(ms) => ms.iter().find(|(k, _)| k == key).map(|(_, v)| v),
        _ => None,
    }
}

fn is_text(v: Option<&Json>, expected: &str) -> bool {
    matches!(v, Some(Json::Str(s)) if s == expected)
}

fn envelope(id: &str, subject: Option<&str>, event_type: &str, data: Option<Json>) -> CloudEvent {
    CloudEvent {
        specversion: "1.0".to_string(),
        id: id.to_string(),
        source: "test".to_string(),
        subject: subject.map(|s| s.to_string()),
        event_type: event_type.to_string(),
        time: None,
        datacontenttype: Some("application/json".to_string()),
        dataschema: None,
        dataref: None,
        sequence: None,
        sequencetype: None,
        data,
    }
}

fn commit(id: &str, resource_id: &str, extra: Vec<(&str, Json)>) -> CloudEvent {
    let mut members = vec![("schema", text("http://localhost:8000/schemas/Issue")), ("resource_id", text(resource_id))];
    members.extend(extra);
    envelope(id, Some(resource_id), "json.commit", Some(obj(members)))
}

fn create_issue(storage: &mut Storage) {
    let data = obj(vec![("title", text("Paspoort")), ("status", text("open")), ("involved", list(vec!["alice"]))]);
    handle_event(storage, commit("e1", "issue-1", vec![("resource_data", data)])).unwrap();
}

fn query_as(storage: &Storage, user: &str) -> usize {
    let hits = vec![hydrate(storage, "issue-1", "issue", storage.get_resource("issue-1"))];
    visible_results(storage, user, hits).len()
}

#[test]
fn scenario_create_then_query_by_principal() {
    let mut storage = Storage::new();
    create_issue(&mut storage);
    let q = apply_authorization_filter("title:Paspoort", "alice");
    assert_eq!(
        q,
        "(title:Paspoort) AND (json_payload.involved:\"alice\" OR json_payload.data.resource_data.involved:\"alice\")"
    );
    let hits = vec![hydrate(&storage, "issue-1", "issue", None)];
    let seen = visible_results(&storage, "alice", hits);
    assert_eq!(seen.len(), 1);
    assert_eq!(seen[0].id, "issue-1");
    assert!(seen[0].resource.is_some());
    assert_eq!(query_as(&storage, "bob"), 0);
}

#[test]
fn scenario_patch_keeps_other_fields() {
    let mut storage = Storage::new();
    create_issue(&mut storage);
    handle_event(&mut storage, commit("e2", "issue-1", vec![("patch", obj(vec![("status", text("closed"))]))])).unwrap();
    let r = storage.get_resource("issue-1").unwrap();
    assert!(is_text(member(&r, "status"), "closed"));
    assert!(is_text(member(&r, "title"), "Paspoort"));
    assert!(matches!(member(&r, "involved"), Some(Json::Array(xs)) if xs.len() == 1));
}

#[test]
fn scenario_delete_removes_resource_and_document() {
    let mut storage = Storage::new();
    create_issue(&mut storage);
    let (_, actions) =
        handle_event(&mut storage, commit("e2", "issue-1", vec![("deleted", Json::Bool(true))])).unwrap();
    assert!(storage.get_resource("issue-1").is_none());
    assert_eq!(actions.len(), 1);
    assert!(matches!(&actions[0], IndexAction::Delete { id } if id == "issue-1"));
    assert_eq!(query_as(&storage, "alice"), 0);
}

#[test]
fn scenario_subscription_gets_only_authorized_delta() {
    let mut storage = Storage::new();
    let mut sub = Subscription::new();
    sub.begin_authentication();
    assert!(sub.authenticate(Some("alice".to_string())));
    let snapshot = sub.take_snapshot(&storage, None, 1000);
    assert!(snapshot.is_empty());
    assert_eq!(sub.state, SubscriptionState::Streaming);

    let mine = obj(vec![("title", text("Mine")), ("involved", list(vec!["alice"]))]);
    let theirs = obj(vec![("title", text("Theirs")), ("involved", list(vec!["bob"]))]);
    let (e1, _) = handle_event(&mut storage, commit("e1", "issue-1", vec![("resource_data", mine)])).unwrap();
    let (e2, _) = handle_event(&mut storage, commit("e2", "issue-2", vec![("resource_data", theirs)])).unwrap();
    let delivered: Vec<CloudEvent> = [e1, e2].iter().filter_map(|e| sub.deliver(&storage, e)).collect();
    assert_eq!(delivered.len(), 1);
    assert_eq!(delivered[0].id, "e1");
    assert_eq!(delivered[0].sequence.as_deref(), Some("00000000000000000001"));
}

#[test]
fn snapshot_filters_by_topics() {
    let mut storage = Storage::new();
    let mine = obj(vec![("title", text("Mine")), ("involved", list(vec!["alice", "bob"]))]);
    let theirs = obj(vec![("title", text("Theirs")), ("involved", list(vec!["carol"]))]);
    handle_event(&mut storage, commit("e1", "issue-1", vec![("resource_data", mine)])).unwrap();
    handle_event(&mut storage, commit("e2", "issue-2", vec![("resource_data", theirs)])).unwrap();
    handle_event(&mut storage, envelope("e3", Some("system"), "notice", None)).unwrap();
    for (user, expected) in [("alice", vec!["e1", "e3"]), ("bob", vec!["e1", "e3"]), ("carol", vec!["e2", "e3"])] {
        let mut sub = Subscription::new();
        sub.begin_authentication();
        sub.authenticate(Some(user.to_string()));
        let snap = sub.take_snapshot(&storage, None, 100);
        let ids: Vec<&str> = snap.iter().map(|e| e.id.as_str()).collect();
        assert_eq!(ids, expected);
    }
}

#[test]
fn unauthenticated_subscription_closes() {
    let mut sub = Subscription::new();
    sub.begin_authentication();
    assert!(!sub.authenticate(None));
    assert_eq!(sub.state, SubscriptionState::Closed);
}

#[test]
fn lagged_subscriber_resnapshots() {
    let storage = Storage::new();
    let mut sub = Subscription::new();
    sub.begin_authentication();
    sub.authenticate(Some("alice".to_string()));
    sub.take_snapshot(&storage, None, 10);
    sub.lagged();
    assert_eq!(sub.state, SubscriptionState::Snapshotting);
    sub.disconnect();
    assert_eq!(sub.state, SubscriptionState::Closed);
}

#[test]
fn unlisted_principal_cannot_see_by_exact_id() {
    let mut storage = Storage::new();
    let data = obj(vec![("title", text("X")), ("involved", list(vec!["A", "B"]))]);
    handle_event(&mut storage, commit("e1", "res", vec![("resource_data", data)])).unwrap();
    assert!(is_authorized(&storage, "A", "res"));
    assert!(is_authorized(&storage, "B", "res"));
    assert!(!is_authorized(&storage, "C", "res"));
    let hits = vec![hydrate(&storage, "res", "issue", None)];
    assert!(visible_results(&storage, "C", hits).is_empty());
}

#[test]
fn resource_without_authorization_path_is_hidden() {
    let mut storage = Storage::new();
    storage.store_resource("loose", "document", &obj(vec![("url", text("http://x"))]), NOW);
    for user in ["alice", "bob", ""] {
        assert!(!is_authorized(&storage, user, "loose"));
    }
    assert!(!is_authorized(&storage, "alice", "missing"));
}

#[test]
fn comments_inherit_parent_visibility() {
    let mut storage = Storage::new();
    create_issue(&mut storage);
    let c = obj(vec![("content", text("Hi")), ("parent_id", text("issue-1"))]);
    let ev = envelope(
        "e2",
        Some("issue-1"),
        "json.commit",
        Some(obj(vec![
            ("schema", text("http://localhost:8000/schemas/Comment")),
            ("resource_id", text("comment-1")),
            ("resource_data", c),
        ])),
    );
    let (_, actions) = handle_event(&mut storage, ev).unwrap();
    assert!(is_authorized(&storage, "alice", "comment-1"));
    assert!(!is_authorized(&storage, "bob", "comment-1"));
    match &actions[0] {
        IndexAction::Upsert { id, doc_type, payload, .. } => {
            assert_eq!(id, "comment-1");
            assert_eq!(doc_type, "comment");
            assert!(matches!(member(payload, "involved"), Some(Json::Array(xs)) if xs.len() == 1));
        },
        _ => panic!("expected an upsert"),
    }
    // the stored comment itself is not changed
    assert!(member(&storage.get_resource("comment-1").unwrap(), "involved").is_none());
    let p = build_index_payload(&storage, "issue", &storage.get_resource("issue-1").unwrap());
    assert!(is_text(member(&p, "title"), "Paspoort"));
}

#[test]
fn parent_cycles_are_denied() {
    let mut storage = Storage::new();
    storage.store_resource("a", "comment", &obj(vec![("parent_id", text("b"))]), NOW);
    storage.store_resource("b", "comment", &obj(vec![("quote_comment", text("a"))]), NOW);
    assert!(!is_authorized(&storage, "alice", "a"));
}

#[test]
fn authorized_topics_use_exact_match() {
    let mut storage = Storage::new();
    storage.store_resource("i1", "issue", &obj(vec![("involved", list(vec!["alice@example.com"]))]), NOW);
    storage.store_resource("i2", "issue", &obj(vec![("involved", list(vec!["alice@example.org"]))]), NOW);
    storage.store_resource("i3", "issue", &obj(vec![("involved", text("alice@example.com"))]), NOW);
    assert_eq!(authorized_topics(&storage, "alice@example.com"), vec!["i1".to_string()]);
    assert!(authorized_topics(&storage, "alice").is_empty());
}

#[test]
fn replay_rebuilds_the_projection() {
    let mut storage = Storage::new();
    create_issue(&mut storage);
    handle_event(&mut storage, commit("e2", "issue-1", vec![("patch", obj(vec![("status", text("closed"))]))])).unwrap();
    handle_event(&mut storage, commit("e3", "issue-2", vec![("resource_data", obj(vec![("title", text("B"))]))]))
        .unwrap();
    handle_event(&mut storage, commit("e4", "issue-2", vec![("deleted", Json::Bool(true))])).unwrap();
    handle_event(&mut storage, commit("e5", "issue-2", vec![("patch", obj(vec![("title", text("C"))]))])).unwrap();
    let before: Vec<(String, String)> =
        storage.list_resources(0, 100).into_iter().map(|(id, v)| (id, format!("{:?}", v))).collect();
    storage.delete_resource("issue-1");
    let actions = rebuild_from_log(&mut storage);
    let after: Vec<(String, String)> =
        storage.list_resources(0, 100).into_iter().map(|(id, v)| (id, format!("{:?}", v))).collect();
    assert_eq!(before, after);
    assert_eq!(actions.len(), 5);
    assert!(matches!(&actions[3], IndexAction::Delete { id } if id == "issue-2"));
    assert!(matches!(&actions[4], IndexAction::Upsert { id, .. } if id == "issue-2"));
    let r2 = storage.get_resource("issue-2").unwrap();
    assert!(is_text(member(&r2, "title"), "C"));
}

#[test]
fn malformed_commit_is_rejected_but_logged() {
    let mut storage = Storage::new();
    let bad = envelope("bad", Some("issue-9"), "json.commit", Some(obj(vec![("schema", text("x"))])));
    assert_eq!(handle_event(&mut storage, bad).unwrap_err(), HandleError::Process(ProcessError::MalformedCommit));
    assert_eq!(storage.event_count(), 1);
    assert_eq!(storage.resource_count(), 0);
    let wrong_type = envelope(
        "bad2",
        None,
        "nl.vng.zaken.json-commit.v1",
        Some(obj(vec![("schema", text("x")), ("resource_id", text("r")), ("deleted", text("yes"))])),
    );
    assert_eq!(process_event(&mut storage, &wrong_type).unwrap_err(), ProcessError::MalformedCommit);
}

#[test]
fn other_events_are_stored_under_their_id() {
    let mut storage = Storage::new();
    let ev = envelope("task-evt", Some("task/1"), "custom.type", Some(obj(vec![("cta", text("Go"))])));
    let (_, actions) = handle_event(&mut storage, ev).unwrap();
    assert_eq!(storage.get_resource_type("task-evt").as_deref(), Some("task"));
    assert_eq!(actions.len(), 1);
    let no_subject = envelope("x", None, "custom.type", Some(obj(vec![])));
    assert!(process_event(&mut storage, &no_subject).unwrap().is_empty());
    let no_data = envelope("y", Some("issue-1"), "json.commit", None);
    assert!(process_event(&mut storage, &no_data).unwrap().is_empty());
    assert_eq!(storage.resource_count(), 1);
}

#[test]
fn resource_type_falls_back_to_subject_then_content() {
    let mut storage = Storage::new();
    let by_subject = envelope(
        "e1",
        Some("planning-3"),
        "json.commit",
        Some(obj(vec![("schema", text("s")), ("resource_id", text("p1")), ("resource_data", obj(vec![]))])),
    );
    handle_event(&mut storage, by_subject).unwrap();
    assert_eq!(storage.get_resource_type("p1").as_deref(), Some("planning"));
    let by_content = envelope(
        "e2",
        Some("x"),
        "json.commit",
        Some(obj(vec![
            ("schema", text("s")),
            ("resource_id", text("d1")),
            ("resource_data", obj(vec![("size", Json::Number("12".to_string()))])),
        ])),
    );
    handle_event(&mut storage, by_content).unwrap();
    assert_eq!(storage.get_resource_type("d1").as_deref(), Some("document"));
    let nothing = envelope(
        "e3",
        None,
        "json.commit",
        Some(obj(vec![("schema", text("s")), ("resource_id", text("u1"))])),
    );
    handle_event(&mut storage, nothing).unwrap();
    assert_eq!(storage.get_resource_type("u1").as_deref(), Some("unknown"));
    assert!(matches!(storage.get_resource("u1"), Some(Json::Object(ms)) if ms.is_empty()));
}

#[test]
fn patch_on_missing_resource_starts_from_empty_object() {
    let mut storage = Storage::new();
    handle_event(&mut storage, commit("e1", "n1", vec![("patch", obj(vec![("a", text("b")), ("c", Json::Null)]))]))
        .unwrap();
    let r = storage.get_resource("n1").unwrap();
    assert!(is_text(member(&r, "a"), "b"));
    assert!(member(&r, "c").is_none());
}

#[test]
fn query_filter_for_match_all() {
    let expected = "(json_payload.involved:\"alice@example.com\" OR json_payload.data.resource_data.involved:\"alice@example.com\")";
    assert_eq!(apply_authorization_filter("*", "alice@example.com"), expected);
    assert_eq!(apply_authorization_filter("   ", "alice@example.com"), expected);
    assert_eq!(apply_authorization_filter(" * ", "alice@example.com"), expected);
    assert_eq!(apply_authorization_filter("\u{3000}*\u{a0}\t", "alice@example.com"), expected);
    assert_ne!(apply_authorization_filter("\u{200b}*", "alice@example.com"), expected);
    let custom = apply_authorization_filter("title:Alice", "alice@example.com");
    assert!(custom.contains("title:Alice"));
    assert!(custom.contains("json_payload.involved:\"alice@example.com\""));
}

#[test]
fn hydration_prefers_the_stores() {
    let mut storage = Storage::new();
    storage.store_resource("r1", "issue", &obj(vec![("title", text("Stored"))]), NOW);
    let h = hydrate(&storage, "r1", "issue", Some(obj(vec![("title", text("Indexed"))])));
    assert!(is_text(member(h.resource.as_ref().unwrap(), "title"), "Stored"));
    let h = hydrate(&storage, "r2", "issue", Some(obj(vec![("title", text("Indexed"))])));
    assert!(is_text(member(h.resource.as_ref().unwrap(), "title"), "Indexed"));
    storage.store_event(&envelope("ev1", None, "json.commit", None)).unwrap();
    let h = hydrate(&storage, "ev1", "json.commit", None);
    assert_eq!(h.event.unwrap().sequence.as_deref(), Some("00000000000000000001"));
    let payload = obj(vec![
        ("specversion", text("1.0")),
        ("id", text("ev9")),
        ("source", text("s")),
        ("type", text("t")),
    ]);
    let h = hydrate(&storage, "ev9", "t", Some(payload));
    assert_eq!(h.event.unwrap().id, "ev9");
    assert!(h.resource.is_none());
}

#[test]
fn comment_under_visible_issue_is_a_topic() {
    let mut storage = Storage::new();
    create_issue(&mut storage);
    storage.store_resource("comment-1", "comment", &obj(vec![("content", text("Hi")), ("parent_id", text("issue-1"))]), NOW);
    let topics = authorized_topics(&storage, "alice");
    assert_eq!(topics, vec!["comment-1".to_string(), "issue-1".to_string()]);
    assert!(authorized_topics(&storage, "bob").is_empty());
}

#[test]
fn event_document_cannot_borrow_a_resource_id() {
    let mut storage = Storage::new();
    let hidden = obj(vec![("title", text("Hidden")), ("involved", list(vec!["bob"]))]);
    handle_event(&mut storage, commit("e1", "secret", vec![("resource_data", hidden)])).unwrap();
    let mine = obj(vec![("title", text("Mine")), ("involved", list(vec!["alice"]))]);
    // an event whose id is the hidden resource's id, about a resource alice may see
    handle_event(&mut storage, envelope("secret", Some("mine"), "json.commit", Some(obj(vec![
        ("schema", text("http://localhost:8000/schemas/Issue")),
        ("resource_id", text("mine")),
        ("resource_data", mine),
    ])))).unwrap();
    let hits = vec![hydrate(&storage, "secret", "json.commit", None)];
    assert!(visible_results(&storage, "alice", hits).is_empty());
}
