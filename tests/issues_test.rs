use zaakchat::issues::get_schema_for_item_type;
use zaakchat::json::{apply_merge_patch, Json};

fn text(s: &str) -> Json {
    Json::Str(s.to_string())
}

fn obj(members: Vec<(&str, Json)>) -> Json {
    Json::Object(members.into_iter().map(|(k, v)| (k.to_string(), v)).collect())
}

fn member<'a>(v: &'a Json, key: &str) -> Option<&'a Json> {
    match v {
        Json::Object(ms) => ms.iter().find(|(k, _)| k == key).map(|(_, v)| v),
        _ => None,
    }
}

fn is_text(v: Option<&Json>, expected: &str) -> bool {
    matches!(v, Some(Json::Str(s)) if s == expected)
}

#[test]
fn test_apply_merge_patch() {
    let mut target = obj(vec![
        ("title", text("Originele Zaak")),
        ("status", text("open")),
        ("assignee", text("john@gemeente.nl")),
    ]);
    let patch = obj(vec![
        ("status", text("closed")),
        ("assignee", Json::Null),
        ("resolution", text("fixed")),
    ]);

    apply_merge_patch(&mut target, &patch);

    assert!(is_text(member(&target, "status"), "closed"));
    assert!(is_text(member(&target, "resolution"), "fixed"));
    assert!(member(&target, "assignee").is_none());
    assert!(is_text(member(&target, "title"), "Originele Zaak"));
}

#[test]
fn merge_patch_replaces_with_non_object_patch() {
    let mut target = obj(vec![("a", text("b"))]);
    apply_merge_patch(&mut target, &text("replacement"));
    assert!(matches!(&target, Json::Str(s) if s == "replacement"));

    let mut target = text("plain");
    apply_merge_patch(&mut target, &obj(vec![("a", text("b"))]));
    assert!(is_text(member(&target, "a"), "b"));
}

#[test]
fn merge_patch_drops_nulls_under_new_keys() {
    let mut target = obj(vec![("nested", obj(vec![("x", text("1")), ("y", text("2"))]))]);
    let patch = obj(vec![
        ("nested", obj(vec![("y", Json::Null), ("z", text("3"))])),
        ("fresh", obj(vec![("gone", Json::Null), ("kept", text("4"))])),
    ]);
    apply_merge_patch(&mut target, &patch);
    let nested = member(&target, "nested").unwrap();
    assert!(is_text(member(nested, "x"), "1"));
    assert!(member(nested, "y").is_none());
    assert!(is_text(member(nested, "z"), "3"));
    let fresh = member(&target, "fresh").unwrap();
    assert!(member(fresh, "gone").is_none());
    assert!(is_text(member(fresh, "kept"), "4"));
}

#[test]
fn schema_urls_for_item_types() {
    assert_eq!(get_schema_for_item_type("task"), "http://localhost:8000/schemas/Task");
    assert_eq!(get_schema_for_item_type("comment"), "http://localhost:8000/schemas/Comment");
    assert_eq!(get_schema_for_item_type("llm_analysis"), "http://localhost:8000/schemas/LLMAnalysis");
    assert_eq!(get_schema_for_item_type("status_change"), "http://localhost:8000/schemas/StatusChange");
    assert_eq!(get_schema_for_item_type("planning"), "http://localhost:8000/schemas/Planning");
    assert_eq!(get_schema_for_item_type("document"), "http://localhost:8000/schemas/Document");
    assert_eq!(get_schema_for_item_type("issue"), "http://localhost:8000/schemas/JSONCommit");
}
