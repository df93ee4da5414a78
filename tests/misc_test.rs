use zaakchat::auth::bearer_token;
use zaakchat::authzen::{evaluation_url, grants, search_filter, Decision};
use zaakchat::email::{EmailService, EmailTransport, MockTransport};
use zaakchat::json::{apply_json_merge_patch, Json};
use zaakchat::schemas::{json_to_cloudevent, JSONCommit};
use zaakchat::text::{str_contains, str_eq, str_lt};

fn text(s: &str) -> Json {
    Json::Str(s.to_string())
}

fn obj(members: Vec<(&str, Json)>) -> Json {
    Json::Object(members.into_iter().map(|(k, v)| (k.to_string(), v)).collect())
}

fn member<'a>(v: &'a Json, key: &str) -> Option<&'a Json> {
    match v {
        Json::Object(ms) => ms.iter().find(|(k, _)| k == key).map(|(_, v)| v),
        _ => None,
    }
}

#[test]
fn merge_with_empty_patch_is_a_no_op() {
    let unpatched = obj(vec![("a", text("1")), ("b", obj(vec![("c", text("2"))]))]);
    let mut target = unpatched.clone();
    apply_json_merge_patch(&mut target, &obj(vec![]));
    assert_eq!(format!("{:?}", target), format!("{:?}", unpatched));
}

#[test]
fn merge_null_removes_key_or_does_nothing() {
    let mut target = obj(vec![("k", text("v")), ("other", text("x"))]);
    apply_json_merge_patch(&mut target, &obj(vec![("k", Json::Null)]));
    assert!(member(&target, "k").is_none());
    assert!(member(&target, "other").is_some());
    let unpatched = obj(vec![("other", text("x"))]);
    let mut target = unpatched.clone();
    apply_json_merge_patch(&mut target, &obj(vec![("k", Json::Null)]));
    assert_eq!(format!("{:?}", target), format!("{:?}", unpatched));
}

#[test]
fn merge_nested_keeps_siblings_and_scalar_patch_replaces() {
    let mut target = obj(vec![("n", obj(vec![("x", text("1")), ("y", text("2"))])), ("s", text("keep"))]);
    apply_json_merge_patch(&mut target, &obj(vec![("n", obj(vec![("y", text("3"))]))]));
    let n = member(&target, "n").unwrap();
    assert!(matches!(member(n, "x"), Some(Json::Str(s)) if s == "1"));
    assert!(matches!(member(n, "y"), Some(Json::Str(s)) if s == "3"));
    assert!(matches!(member(&target, "s"), Some(Json::Str(s)) if s == "keep"));
    apply_json_merge_patch(&mut target, &Json::Array(vec![text("z")]));
    assert!(matches!(&target, Json::Array(xs) if xs.len() == 1));
    let mut scalar = text("old");
    apply_json_merge_patch(&mut scalar, &obj(vec![("a", text("b"))]));
    assert!(matches!(member(&scalar, "a"), Some(Json::Str(s)) if s == "b"));
}

#[test]
fn commit_payload_parsing() {
    let good = obj(vec![
        ("schema", text("s")),
        ("resource_id", text("r")),
        ("actor", Json::Null),
        ("timestamp", text("2024-01-15T10:30:00Z")),
        ("patch", Json::Null),
        ("deleted", Json::Bool(false)),
    ]);
    let c = JSONCommit::from_json(&good).unwrap();
    assert_eq!(c.resource_id, "r");
    assert!(c.actor.is_none());
    assert_eq!(c.timestamp.as_deref(), Some("2024-01-15T10:30:00Z"));
    assert!(c.patch.is_none());
    assert_eq!(c.deleted, Some(false));
    assert!(JSONCommit::from_json(&obj(vec![("schema", text("s"))])).is_err());
    assert!(JSONCommit::from_json(&obj(vec![("schema", text("s")), ("resource_id", Json::Null)])).is_err());
    assert!(JSONCommit::from_json(&text("s")).is_err());
}

#[test]
fn cloudevent_from_json() {
    let j = obj(vec![
        ("specversion", text("1.0")),
        ("id", text("e1")),
        ("source", text("src")),
        ("type", text("json.commit")),
        ("subject", text("issue-1")),
        ("time", Json::Bool(true)),
        ("data", Json::Null),
    ]);
    let e = json_to_cloudevent(&j).unwrap();
    assert_eq!(e.id, "e1");
    assert_eq!(e.event_type, "json.commit");
    assert_eq!(e.subject.as_deref(), Some("issue-1"));
    assert!(e.time.is_none());
    assert!(matches!(e.data, Some(Json::Null)));
    assert!(json_to_cloudevent(&obj(vec![("id", text("e1"))])).is_none());
}

#[test]
fn bearer_tokens() {
    assert_eq!(bearer_token("Bearer abc.def").as_deref(), Some("abc.def"));
    assert_eq!(bearer_token("Bearer ").as_deref(), Some(""));
    assert!(bearer_token("Basic abc").is_none());
    assert!(bearer_token("bearer abc").is_none());
    assert!(bearer_token("Bear").is_none());
}

#[test]
fn policy_decisions() {
    assert!(grants(Some(Decision::Permit)));
    assert!(!grants(Some(Decision::Deny)));
    assert!(!grants(Some(Decision::Indeterminate)));
    assert!(!grants(None));
    assert_eq!(
        search_filter(Some(Decision::Permit), Some("involved:alice OR status:open".to_string()), "alice"),
        "involved:alice OR status:open"
    );
    assert_eq!(search_filter(None, None, "alice"), "involved:alice");
    assert_eq!(search_filter(Some(Decision::Deny), Some("x".to_string()), "alice"), "involved:alice");
    assert_eq!(evaluation_url("http://pdp:8080//"), "http://pdp:8080/access/v1/evaluation");
    assert_eq!(evaluation_url("http://pdp"), "http://pdp/access/v1/evaluation");
}

struct Recorder;

impl EmailTransport for Recorder {
    fn send_magic_link(&self, email: &str, _token: &str) -> Result<(), String> {
        if email.is_empty() {
            Err("no address".to_string())
        } else {
            Ok(())
        }
    }

    fn send_notification(
        &self,
        _to: &str,
        _subject: &str,
        _html_body: &str,
        _text_body: &str,
        _reply_to: Option<&str>,
        _thread_id: Option<&str>,
    ) -> Result<(), String> {
        Ok(())
    }
}

#[test]
fn email_service_uses_its_transport() {
    let service = EmailService::new(Recorder);
    assert!(service.send_magic_link("a@b.c", "t").is_ok());
    assert!(service.send_magic_link("", "t").is_err());
    assert!(service.send_notification("a@b.c", "s", "<p>h</p>", "t", None, Some("thread")).is_ok());
    let mock = MockTransport::new("http://localhost:8000".to_string());
    assert_eq!(mock.magic_link("tok"), "http://localhost:8000/verify-login?token=tok");
}

#[test]
fn text_helpers() {
    assert!(str_eq("abc", "abc"));
    assert!(!str_eq("abc", "abd"));
    assert!(str_contains("hello world", "o w"));
    assert!(str_contains("x", ""));
    assert!(!str_contains("abc", "abcd"));
    assert!(str_lt("abc", "abd"));
    assert!(str_lt("ab", "abc"));
    assert!(!str_lt("abc", "abc"));
    assert!(!str_lt("b", "abc"));
}
