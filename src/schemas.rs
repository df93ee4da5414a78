//! The event envelope, the commit payload, and the resource shapes of the
//! case-management domain.
use vstd::prelude::*;
use crate::json::{field, Json, JsonV};

verus! {

pub open spec fn opt_str(o: Option<String>) -> Option<Seq<char>> {
    match o {
        Some(s) => Some(s@),
        None => None,
    }
}

pub open spec fn opt_json(o: Option<Json>) -> Option<JsonV> {
    match o {
        Some(j) => Some(j@),
        None => None,
    }
}

pub fn copy_opt_str(o: &Option<String>) -> (r: Option<String>)
    ensures
        opt_str(r) == opt_str(*o),
{
    match o {
        Some(s) => Some(s.clone()),
        None => None,
    }
}

pub fn copy_opt_json(o: &Option<Json>) -> (r: Option<Json>)
    ensures
        opt_json(r) == opt_json(*o),
{
    match o {
        Some(j) => Some(j.deep_copy()),
        None => None,
    }
}

/// A CloudEvents 1.0 envelope.
#[derive(Debug)]
pub struct CloudEvent {
    pub specversion: String,
    pub id: String,
    pub source: String,
    pub subject: Option<String>,
    pub event_type: String,
    pub time: Option<String>,
    pub datacontenttype: Option<String>,
    pub dataschema: Option<String>,
    pub dataref: Option<String>,
    /// Assigned by the event log; the only field that orders events.
    pub sequence: Option<String>,
    pub sequencetype: Option<String>,
    pub data: Option<Json>,
}

/// The model of a `CloudEvent`.
pub struct CloudEventV {
    pub specversion: Seq<char>,
    pub id: Seq<char>,
    pub source: Seq<char>,
    pub subject: Option<Seq<char>>,
    pub event_type: Seq<char>,
    pub time: Option<Seq<char>>,
    pub datacontenttype: Option<Seq<char>>,
    pub dataschema: Option<Seq<char>>,
    pub dataref: Option<Seq<char>>,
    pub sequence: Option<Seq<char>>,
    pub sequencetype: Option<Seq<char>>,
    pub data: Option<JsonV>,
}

impl View for CloudEvent {
    type V = CloudEventV;

    open spec fn view(&self) -> CloudEventV {
        CloudEventV {
            specversion: self.specversion@,
            id: self.id@,
            source: self.source@,
            subject: opt_str(self.subject),
            event_type: self.event_type@,
            time: opt_str(self.time),
            datacontenttype: opt_str(self.datacontenttype),
            dataschema: opt_str(self.dataschema),
            dataref: opt_str(self.dataref),
            sequence: opt_str(self.sequence),
            sequencetype: opt_str(self.sequencetype),
            data: opt_json(self.data),
        }
    }
}

impl Clone for CloudEvent {
    fn clone(&self) -> (r: CloudEvent)
        ensures
            r@ == self@,
    {
        CloudEvent {
            specversion: self.specversion.clone(),
            id: self.id.clone(),
            source: self.source.clone(),
            subject: copy_opt_str(&self.subject),
            event_type: self.event_type.clone(),
            time: copy_opt_str(&self.time),
            datacontenttype: copy_opt_str(&self.datacontenttype),
            dataschema: copy_opt_str(&self.dataschema),
            dataref: copy_opt_str(&self.dataref),
            sequence: copy_opt_str(&self.sequence),
            sequencetype: copy_opt_str(&self.sequencetype),
            data: copy_opt_json(&self.data),
        }
    }
}

/// A change to one JSON resource: a full replacement, a merge patch, or a
/// deletion.
#[derive(Debug)]
pub struct JSONCommit {
    pub schema: String,
    pub resource_id: String,
    pub actor: Option<String>,
    pub timestamp: Option<String>,
    pub resource_data: Option<Json>,
    pub patch: Option<Json>,
    pub deleted: Option<bool>,
}

/// The model of a `JSONCommit`.
pub struct CommitV {
    pub schema: Seq<char>,
    pub resource_id: Seq<char>,
    pub actor: Option<Seq<char>>,
    pub timestamp: Option<Seq<char>>,
    pub resource_data: Option<JsonV>,
    pub patch: Option<JsonV>,
    pub deleted: Option<bool>,
}

impl View for JSONCommit {
    type V = CommitV;

    open spec fn view(&self) -> CommitV {
        CommitV {
            schema: self.schema@,
            resource_id: self.resource_id@,
            actor: opt_str(self.actor),
            timestamp: opt_str(self.timestamp),
            resource_data: opt_json(self.resource_data),
            patch: opt_json(self.patch),
            deleted: self.deleted,
        }
    }
}

/// An optional text member: absent, `null` or a string.
pub open spec fn opt_text_ok(f: Option<JsonV>) -> bool {
    match f {
        None => true,
        Some(JsonV::Null) => true,
        Some(JsonV::Str(_)) => true,
        _ => false,
    }
}

pub open spec fn opt_text(f: Option<JsonV>) -> Option<Seq<char>> {
    match f {
        Some(JsonV::Str(s)) => Some(s),
        _ => None,
    }
}

/// An optional member of any JSON type, where `null` counts as absent.
pub open spec fn opt_value(f: Option<JsonV>) -> Option<JsonV> {
    match f {
        Some(JsonV::Null) => None,
        _ => f,
    }
}

pub open spec fn opt_bool_ok(f: Option<JsonV>) -> bool {
    match f {
        None => true,
        Some(JsonV::Null) => true,
        Some(JsonV::Bool(_)) => true,
        _ => false,
    }
}

pub open spec fn opt_bool(f: Option<JsonV>) -> Option<bool> {
    match f {
        Some(JsonV::Bool(b)) => Some(b),
        _ => None,
    }
}

/// `d` is a well-formed commit payload: an object with string members
/// `schema` and `resource_id`, and optional members of the right types.
pub open spec fn is_commit_payload(d: JsonV) -> bool {
    &&& d is Object
    &&& field(d, "schema"@) matches Some(JsonV::Str(_))
    &&& field(d, "resource_id"@) matches Some(JsonV::Str(_))
    &&& opt_text_ok(field(d, "actor"@))
    &&& opt_text_ok(field(d, "timestamp"@))
    &&& opt_bool_ok(field(d, "deleted"@))
}

/// The commit that a well-formed payload `d` describes.
pub open spec fn commit_of(d: JsonV) -> CommitV {
    CommitV {
        schema: opt_text(field(d, "schema"@)).unwrap(),
        resource_id: opt_text(field(d, "resource_id"@)).unwrap(),
        actor: opt_text(field(d, "actor"@)),
        timestamp: opt_text(field(d, "timestamp"@)),
        resource_data: opt_value(field(d, "resource_data"@)),
        patch: opt_value(field(d, "patch"@)),
        deleted: opt_bool(field(d, "deleted"@)),
    }
}

fn text_member(d: &Json, key: &str) -> (r: Result<Option<String>, ()>)
    ensures
        r is Ok <==> opt_text_ok(field(d@, key@)),
        r matches Ok(t) ==> opt_str(t) == opt_text(field(d@, key@)),
{
    match d.get(key) {
        None => Ok(None),
        Some(Json::Null) => Ok(None),
        Some(Json::Str(s)) => Ok(Some(s.clone())),
        Some(_) => Err(()),
    }
}

fn value_member(d: &Json, key: &str) -> (r: Option<Json>)
    ensures
        opt_json(r) == opt_value(field(d@, key@)),
{
    match d.get(key) {
        None => None,
        Some(Json::Null) => None,
        Some(v) => Some(v.deep_copy()),
    }
}

impl JSONCommit {
    /// Reads a commit from an event's `data` payload.
    pub fn from_json(d: &Json) -> (r: Result<JSONCommit, ()>)
        ensures
            r is Ok <==> is_commit_payload(d@),
            r matches Ok(c) ==> c@ == commit_of(d@),
    {
        if !d.is_object() {
            return Err(());
        }
        let schema = match text_member(d, "schema") {
            Ok(Some(s)) => s,
            _ => {
                return Err(());
            },
        };
        let resource_id = match text_member(d, "resource_id") {
            Ok(Some(s)) => s,
            _ => {
                return Err(());
            },
        };
        let actor = match text_member(d, "actor") {
            Ok(t) => t,
            Err(_) => {
                return Err(());
            },
        };
        let timestamp = match text_member(d, "timestamp") {
            Ok(t) => t,
            Err(_) => {
                return Err(());
            },
        };
        let deleted = match d.get("deleted") {
            None => None,
            Some(Json::Null) => None,
            Some(Json::Bool(b)) => Some(*b),
            Some(_) => {
                return Err(());
            },
        };
        let resource_data = value_member(d, "resource_data");
        let patch = value_member(d, "patch");
        Ok(JSONCommit { schema, resource_id, actor, timestamp, resource_data, patch, deleted })
    }
}

/// The kinds of items in a case.
#[derive(Debug, Clone, Copy, PartialEq, Eq, Structural)]
pub enum ItemType {
    Issue,
    Comment,
    Task,
    Planning,
    Document,
}

/// A file attached to a case.
#[derive(Debug, Clone)]
pub struct Document {
    pub title: String,
    pub url: String,
    /// Size in bytes.
    pub size: u64,
}

/// A case: a citizen's request handled by the municipality.
#[derive(Debug, Clone)]
pub struct Issue {
    pub title: String,
    pub description: Option<String>,
    pub status: IssueStatus,
    pub assignee: Option<String>,
    pub resolution: Option<String>,
    /// The users who may see the case.
    pub involved: Option<Vec<String>>,
}

/// An action to take to handle a case.
#[derive(Debug, Clone)]
pub struct Task {
    pub cta: String,
    pub description: String,
    pub url: String,
    pub completed: bool,
    pub deadline: Option<String>,
}

/// The handling state of a case.
#[derive(Debug, Clone, Copy, PartialEq, Eq, Structural)]
pub enum IssueStatus {
    Open,
    InProgress,
    Closed,
}

/// A remark on a case.
#[derive(Debug, Clone)]
pub struct Comment {
    pub content: String,
    pub parent_id: Option<String>,
    pub mentions: Option<Vec<String>>,
}

/// A timeline of steps for handling a case.
#[derive(Debug, Clone)]
pub struct Planning {
    pub title: Option<String>,
    pub description: Option<String>,
    pub moments: Vec<PlanningMoment>,
}

/// One step of a planning.
#[derive(Debug, Clone)]
pub struct PlanningMoment {
    pub date: Option<String>,
    pub title: String,
    pub status: PlanningStatus,
}

/// The state of a planning step.
#[derive(Debug, Clone, Copy, PartialEq, Eq, Structural)]
pub enum PlanningStatus {
    Completed,
    Current,
    Planned,
}

} // verus!

verus! {

/// The text of member `k`, when it is a string.
pub open spec fn text_field(j: JsonV, k: Seq<char>) -> Option<Seq<char>> {
    opt_text(field(j, k))
}

/// The event that a JSON envelope describes: it needs string members
/// `specversion`, `id`, `source` and `type`; optional members that are not
/// strings are left out.
pub open spec fn cloudevent_of(j: JsonV) -> Option<CloudEventV> {
    if text_field(j, "specversion"@) is Some && text_field(j, "id"@) is Some && text_field(j, "source"@) is Some
        && text_field(j, "type"@) is Some {
        Some(
            CloudEventV {
                specversion: text_field(j, "specversion"@).unwrap(),
                id: text_field(j, "id"@).unwrap(),
                source: text_field(j, "source"@).unwrap(),
                subject: text_field(j, "subject"@),
                event_type: text_field(j, "type"@).unwrap(),
                time: text_field(j, "time"@),
                datacontenttype: text_field(j, "datacontenttype"@),
                dataschema: text_field(j, "dataschema"@),
                dataref: text_field(j, "dataref"@),
                sequence: text_field(j, "sequence"@),
                sequencetype: text_field(j, "sequencetype"@),
                data: field(j, "data"@),
            },
        )
    } else {
        None
    }
}

fn string_member(j: &Json, key: &str) -> (r: Option<String>)
    ensures
        opt_str(r) == text_field(j@, key@),
{
    match j.get(key) {
        Some(Json::Str(s)) => Some(s.clone()),
        _ => None,
    }
}

/// Reads a CloudEvent from its JSON form.
pub fn json_to_cloudevent(json_event: &Json) -> (r: Option<CloudEvent>)
    ensures
        r matches Some(e) ==> cloudevent_of(json_event@) == Some(e@),
        r is None ==> cloudevent_of(json_event@) is None,
{
    let specversion = match string_member(json_event, "specversion") {
        Some(s) => s,
        None => {
            return None;
        },
    };
    let id = match string_member(json_event, "id") {
        Some(s) => s,
        None => {
            return None;
        },
    };
    let source = match string_member(json_event, "source") {
        Some(s) => s,
        None => {
            return None;
        },
    };
    let event_type = match string_member(json_event, "type") {
        Some(s) => s,
        None => {
            return None;
        },
    };
    let data = match json_event.get("data") {
        Some(d) => Some(d.deep_copy()),
        None => None,
    };
    Some(
        CloudEvent {
            specversion,
            id,
            source,
            subject: string_member(json_event, "subject"),
            event_type,
            time: string_member(json_event, "time"),
            datacontenttype: string_member(json_event, "datacontenttype"),
            dataschema: string_member(json_event, "dataschema"),
            dataref: string_member(json_event, "dataref"),
            sequence: string_member(json_event, "sequence"),
            sequencetype: string_member(json_event, "sequencetype"),
            data,
        },
    )
}

} // verus!
