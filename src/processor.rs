//! Turning events into resource state: resource type resolution, commit
//! application, and replay of the log.
use vstd::prelude::*;
use crate::json::{field, merged, remove_key, Json, JsonV, merge_patch, distinct_keys};
use crate::schemas::{commit_of, is_commit_payload, CloudEvent, CloudEventV, CommitV, JSONCommit};
use crate::authz::{build_index_payload, index_payload};
use crate::schemas::opt_str;
use crate::storage::{lookup, lemma_put_sorted, put_sorted, lemma_remove_key_distinct, ResourceV, Storage};
use crate::text::{is_substring, str_contains, str_eq};

verus! {

/// The resource type named in a schema URL.
pub open spec fn schema_type(s: Seq<char>) -> Seq<char> {
    if is_substring(s, "Issue"@) {
        "issue"@
    } else if is_substring(s, "Comment"@) {
        "comment"@
    } else if is_substring(s, "Task"@) {
        "task"@
    } else if is_substring(s, "Planning"@) {
        "planning"@
    } else if is_substring(s, "Document"@) {
        "document"@
    } else {
        "unknown"@
    }
}

/// The resource type named in an event subject.
pub open spec fn subject_type(s: Seq<char>) -> Seq<char> {
    if is_substring(s, "issue"@) {
        "issue"@
    } else if is_substring(s, "comment"@) {
        "comment"@
    } else if is_substring(s, "task"@) {
        "task"@
    } else if is_substring(s, "planning"@) {
        "planning"@
    } else if is_substring(s, "document"@) {
        "document"@
    } else {
        "unknown"@
    }
}

/// The resource type that the members of a resource suggest.
pub open spec fn sniffed_type(d: JsonV) -> Seq<char> {
    if field(d, "title"@) is Some {
        "issue"@
    } else if field(d, "content"@) is Some {
        "comment"@
    } else if field(d, "cta"@) is Some {
        "task"@
    } else if field(d, "moments"@) is Some {
        "planning"@
    } else if field(d, "url"@) is Some || field(d, "size"@) is Some {
        "document"@
    } else {
        "unknown"@
    }
}

/// The type shown for a resource in a listing.
pub open spec fn listing_type(d: JsonV) -> Seq<char> {
    if field(d, "title"@) is Some {
        "issue"@
    } else if field(d, "content"@) is Some {
        "comment"@
    } else if field(d, "cta"@) is Some {
        "task"@
    } else if field(d, "moments"@) is Some {
        "planning"@
    } else {
        "unknown"@
    }
}

/// The type of the resource a commit writes: the schema hint, else the
/// subject hint, else what the new resource data suggests, else unknown.
pub open spec fn resolved_type(c: CommitV, subject: Option<Seq<char>>) -> Seq<char> {
    let by_schema = schema_type(c.schema);
    let by_subject = match subject {
        Some(s) => subject_type(s),
        None => "unknown"@,
    };
    if by_schema != "unknown"@ {
        by_schema
    } else if by_subject != "unknown"@ {
        by_subject
    } else {
        match c.resource_data {
            Some(d) => sniffed_type(d),
            None => "unknown"@,
        }
    }
}

/// Event types that carry a JSON commit.
pub open spec fn is_commit_type(t: Seq<char>) -> bool {
    t == "nl.vng.zaken.json-commit.v1"@ || t == "json.commit"@
}

/// The value a (non-deleting) commit gives a resource whose value so far is
/// `existing`: the patch merged onto it, else the full replacement, else the
/// value as it was; a missing resource counts as `{}`.
pub open spec fn committed_value(existing: Option<ResourceV>, c: CommitV) -> JsonV {
    let base = match existing {
        Some(r) => r.data,
        None => JsonV::Object(Seq::empty()),
    };
    match c.patch {
        Some(p) => merge_patch(base, p),
        None => match c.resource_data {
            Some(d) => d,
            None => base,
        },
    }
}

/// The resource an event writes, if any.
pub open spec fn target_id(e: CloudEventV) -> Option<Seq<char>> {
    match e.data {
        None => None,
        Some(d) => if is_commit_type(e.event_type) {
            if is_commit_payload(d) {
                Some(commit_of(d).resource_id)
            } else {
                None
            }
        } else {
            match e.subject {
                Some(_) => Some(e.id),
                None => None,
            }
        },
    }
}

/// What an event does to the resource it writes, given its value so far:
/// `None` when the event deletes it.
pub open spec fn event_effect(prev: Option<ResourceV>, e: CloudEventV) -> Option<ResourceV> {
    let d = e.data.unwrap();
    if is_commit_type(e.event_type) {
        let c = commit_of(d);
        if c.deleted == Some(true) {
            None
        } else {
            Some(ResourceV { resource_type: resolved_type(c, e.subject), data: committed_value(prev, c) })
        }
    } else {
        Some(ResourceV { resource_type: subject_type(e.subject.unwrap()), data: d })
    }
}

/// The resources after processing event `e`.
pub open spec fn apply_event(store: Seq<(Seq<char>, ResourceV)>, e: CloudEventV) -> Seq<(Seq<char>, ResourceV)> {
    match target_id(e) {
        None => store,
        Some(id) => match event_effect(lookup(store, id), e) {
            None => remove_key(store, id),
            Some(v) => put_sorted(store, id, v),
        },
    }
}

/// The resources after processing `evs` in order, starting from none.
pub open spec fn replay(evs: Seq<CloudEventV>) -> Seq<(Seq<char>, ResourceV)>
    decreases evs.len(),
{
    if evs.len() == 0 {
        Seq::empty()
    } else {
        apply_event(replay(evs.drop_last()), evs.last())
    }
}

/// The value of resource `id` after the events of `evs` that write it, folded
/// in order from nothing.
pub open spec fn replay_resource(evs: Seq<CloudEventV>, id: Seq<char>) -> Option<ResourceV>
    decreases evs.len(),
{
    if evs.len() == 0 {
        None
    } else {
        let prev = replay_resource(evs.drop_last(), id);
        if target_id(evs.last()) == Some(id) {
            event_effect(prev, evs.last())
        } else {
            prev
        }
    }
}

/// Processing an event changes only the resource it writes.
pub proof fn lemma_apply_event_lookup(store: Seq<(Seq<char>, ResourceV)>, e: CloudEventV, id: Seq<char>)
    requires
        distinct_keys(store),
    ensures
        distinct_keys(apply_event(store, e)),
        lookup(apply_event(store, e), id) == if target_id(e) == Some(id) {
            event_effect(lookup(store, id), e)
        } else {
            lookup(store, id)
        },
{
    match target_id(e) {
        None => {},
        Some(t) => {
            match event_effect(lookup(store, t), e) {
                None => lemma_remove_key_distinct(store, t),
                Some(v) => lemma_put_sorted(store, t, v),
            }
        },
    }
}

/// Replay determinism: replaying a log from nothing leaves each resource at
/// exactly the value obtained by folding, in log order, only the events that
/// write that resource.
pub proof fn lemma_replay_determinism(evs: Seq<CloudEventV>, id: Seq<char>)
    ensures
        distinct_keys(replay(evs)),
        lookup(replay(evs), id) == replay_resource(evs, id),
    decreases evs.len(),
{
    if evs.len() > 0 {
        lemma_replay_determinism(evs.drop_last(), id);
        lemma_apply_event_lookup(replay(evs.drop_last()), evs.last(), id);
    }
}

/// Logging an event and then applying it keeps the resources equal to the
/// replay of the log: the fields the log rewrites (sequence, envelope
/// metadata) play no part in processing, and an event that is rejected
/// changes nothing in either.
pub proof fn lemma_append_keeps_replay(log: Seq<CloudEventV>, store: Seq<(Seq<char>, ResourceV)>, e: CloudEventV, key: Seq<char>)
    requires
        store == replay(log),
    ensures
        apply_event(store, e) == replay(log.push(crate::storage::stored_event(e, key))),
{
    let s = crate::storage::stored_event(e, key);
    assert(log.push(s).drop_last() =~= log);
    assert(target_id(s) == target_id(e));
    assert(forall|p: Option<ResourceV>| event_effect(p, s) == event_effect(p, e));
}

/// The resource type named in a schema URL: issue, comment, task, planning,
/// document or unknown.
pub fn extract_resource_type_from_schema(schema: &str) -> (r: &'static str)
    ensures
        r@ == schema_type(schema@),
{
    if str_contains(schema, "Issue") {
        "issue"
    } else if str_contains(schema, "Comment") {
        "comment"
    } else if str_contains(schema, "Task") {
        "task"
    } else if str_contains(schema, "Planning") {
        "planning"
    } else if str_contains(schema, "Document") {
        "document"
    } else {
        "unknown"
    }
}

/// The resource type named in an event subject.
pub fn extract_resource_type_from_subject(subject: &str) -> (r: &'static str)
    ensures
        r@ == subject_type(subject@),
{
    if str_contains(subject, "issue") {
        "issue"
    } else if str_contains(subject, "comment") {
        "comment"
    } else if str_contains(subject, "task") {
        "task"
    } else if str_contains(subject, "planning") {
        "planning"
    } else if str_contains(subject, "document") {
        "document"
    } else {
        "unknown"
    }
}

/// The resource type that the members of `data` suggest.
pub fn sniff_resource_type(data: &Json) -> (r: &'static str)
    ensures
        r@ == sniffed_type(data@),
{
    if data.contains_key("title") {
        "issue"
    } else if data.contains_key("content") {
        "comment"
    } else if data.contains_key("cta") {
        "task"
    } else if data.contains_key("moments") {
        "planning"
    } else if data.contains_key("url") || data.contains_key("size") {
        "document"
    } else {
        "unknown"
    }
}

/// The type shown for a resource in a listing.
pub fn listing_resource_type(data: &Json) -> (r: &'static str)
    ensures
        r@ == listing_type(data@),
{
    if data.contains_key("title") {
        "issue"
    } else if data.contains_key("content") {
        "comment"
    } else if data.contains_key("cta") {
        "task"
    } else if data.contains_key("moments") {
        "planning"
    } else {
        "unknown"
    }
}

/// The type of the resource a commit writes.
pub fn resolve_resource_type(commit: &JSONCommit, subject: &Option<String>) -> (r: &'static str)
    ensures
        r@ == resolved_type(commit@, crate::schemas::opt_str(*subject)),
{
    let by_schema = extract_resource_type_from_schema(commit.schema.as_str());
    if !str_eq(by_schema, "unknown") {
        return by_schema;
    }
    let by_subject = match subject {
        Some(s) => extract_resource_type_from_subject(s.as_str()),
        None => "unknown",
    };
    if !str_eq(by_subject, "unknown") {
        return by_subject;
    }
    match &commit.resource_data {
        Some(d) => sniff_resource_type(d),
        None => "unknown",
    }
}

/// Whether `t` names a JSON-commit event.
pub fn is_commit_event_type(t: &str) -> (r: bool)
    ensures
        r == is_commit_type(t@),
{
    str_eq(t, "nl.vng.zaken.json-commit.v1") || str_eq(t, "json.commit")
}

/// An update the search index needs after an event was processed.
#[derive(Debug)]
pub enum IndexAction {
    /// Replace whatever the index holds under `id` by this document.
    Upsert { id: String, doc_type: String, payload: Json, timestamp: Option<String> },
    /// Remove the document `id` from the index.
    Delete { id: String },
}

/// The model of an `IndexAction`.
pub enum IndexActionV {
    Upsert { id: Seq<char>, doc_type: Seq<char>, payload: JsonV, timestamp: Option<Seq<char>> },
    Delete { id: Seq<char> },
}

impl View for IndexAction {
    type V = IndexActionV;

    open spec fn view(&self) -> IndexActionV {
        match self {
            IndexAction::Upsert { id, doc_type, payload, timestamp } => IndexActionV::Upsert {
                id: id@,
                doc_type: doc_type@,
                payload: payload@,
                timestamp: opt_str(*timestamp),
            },
            IndexAction::Delete { id } => IndexActionV::Delete { id: id@ },
        }
    }
}

pub open spec fn actions_view(v: Seq<IndexAction>) -> Seq<IndexActionV> {
    v.map_values(|a: IndexAction| a@)
}

/// The index updates that follow event `e`, given the resources after it.
pub open spec fn index_actions(store: Seq<(Seq<char>, ResourceV)>, e: CloudEventV) -> Seq<IndexActionV> {
    match target_id(e) {
        None => Seq::empty(),
        Some(id) => match lookup(store, id) {
            None => seq![IndexActionV::Delete { id }],
            Some(r) => seq![
                IndexActionV::Upsert {
                    id,
                    doc_type: r.resource_type,
                    payload: index_payload(store, r.resource_type, r.data),
                    timestamp: if is_commit_type(e.event_type) {
                        commit_of(e.data.unwrap()).timestamp
                    } else {
                        None
                    },
                },
            ],
        },
    }
}

/// A commit event whose payload is not a well-formed commit.
pub open spec fn is_malformed(e: CloudEventV) -> bool {
    e.data matches Some(d) && is_commit_type(e.event_type) && !is_commit_payload(d)
}

/// Why processing an event failed.
#[derive(Debug, Clone, Copy, PartialEq, Eq, Structural)]
pub enum ProcessError {
    /// The event claims to carry a commit, but its payload is not one.
    MalformedCommit,
}

/// Applies an event to the resources: a commit creates, patches, replaces or
/// deletes its resource; another event with a subject and data is stored as
/// a resource under the event's own id, stamped `now`. Returns the index
/// updates to make.
pub fn process_event(storage: &mut Storage, event: &CloudEvent, now: &str) -> (r: Result<Vec<IndexAction>, ProcessError>)
    requires
        old(storage).wf(),
    ensures
        final(storage).wf(),
        final(storage).log() == old(storage).log(),
        final(storage).sequences() == old(storage).sequences(),
        final(storage).last_sequence() == old(storage).last_sequence(),
        final(storage).logins() == old(storage).logins(),
        r is Err <==> is_malformed(event@),
        r is Err ==> final(storage).resources() == old(storage).resources(),
        r is Ok ==> final(storage).resources() == apply_event(old(storage).resources(), event@),
        r matches Ok(actions) ==> actions_view(actions@) == index_actions(final(storage).resources(), event@),
{
    let ghost before = storage.resources();
    proof {
        storage.lemma_wf();
    }
    let mut actions: Vec<IndexAction> = Vec::new();
    let data = match &event.data {
        None => {
            assert(actions_view(actions@) =~= Seq::<IndexActionV>::empty());
            return Ok(actions);
        },
        Some(d) => d,
    };
    if is_commit_event_type(event.event_type.as_str()) {
        let commit = match JSONCommit::from_json(data) {
            Ok(c) => c,
            Err(_) => {
                return Err(ProcessError::MalformedCommit);
            },
        };
        let ghost id = commit.resource_id@;
        let deleting = match commit.deleted {
            Some(b) => b,
            None => false,
        };
        if deleting {
            storage.delete_resource(commit.resource_id.as_str());
            proof {
                lemma_remove_key_distinct(before, id);
            }
            actions.push(IndexAction::Delete { id: commit.resource_id });
            assert(actions_view(actions@) =~= index_actions(storage.resources(), event@));
            return Ok(actions);
        }
        let rtype = resolve_resource_type(&commit, &event.subject);
        let existing = storage.get_resource(commit.resource_id.as_str());
        let base = match existing {
            Some(e) => e,
            None => Json::empty_object(),
        };
        let new_value = match &commit.patch {
            Some(p) => merged(base, p),
            None => match &commit.resource_data {
                Some(d) => d.deep_copy(),
                None => base,
            },
        };
        let ghost v = ResourceV { resource_type: rtype@, data: new_value@ };
        assert(event_effect(lookup(before, id), event@) == Some(v));
        storage.store_resource(commit.resource_id.as_str(), rtype, &new_value, now);
        proof {
            lemma_put_sorted(before, id, v);
        }
        let payload = build_index_payload(storage, rtype, &new_value);
        actions.push(
            IndexAction::Upsert {
                id: commit.resource_id,
                doc_type: rtype.to_string(),
                payload,
                timestamp: commit.timestamp,
            },
        );
        assert(actions_view(actions@) =~= index_actions(storage.resources(), event@));
        Ok(actions)
    } else {
        match &event.subject {
            Some(s) => {
                let rtype = extract_resource_type_from_subject(s.as_str());
                let ghost v = ResourceV { resource_type: rtype@, data: data@ };
                storage.store_resource(event.id.as_str(), rtype, data, now);
                proof {
                    lemma_put_sorted(before, event.id@, v);
                }
                let payload = build_index_payload(storage, rtype, data);
                actions.push(
                    IndexAction::Upsert {
                        id: event.id.clone(),
                        doc_type: rtype.to_string(),
                        payload,
                        timestamp: None,
                    },
                );
                assert(actions_view(actions@) =~= index_actions(storage.resources(), event@));
                Ok(actions)
            },
            None => {
                assert(actions_view(actions@) =~= Seq::<IndexActionV>::empty());
                Ok(actions)
            },
        }
    }
}

/// The index updates of replaying `evs` from nothing: those of each event in
/// turn, given the resources right after it.
pub open spec fn replay_actions(evs: Seq<CloudEventV>) -> Seq<IndexActionV>
    decreases evs.len(),
{
    if evs.len() == 0 {
        Seq::empty()
    } else {
        replay_actions(evs.drop_last()) + index_actions(replay(evs), evs.last())
    }
}

/// Rebuilds every resource from the log: the resources are dropped and all
/// logged events processed again in sequence order, stamped `now`. Returns
/// the index updates, in order.
pub fn rebuild_from_log(storage: &mut Storage, now: &str) -> (r: Vec<IndexAction>)
    requires
        old(storage).wf(),
    ensures
        final(storage).wf(),
        final(storage).resources() == replay(old(storage).log()),
        actions_view(r@) == replay_actions(old(storage).log()),
        final(storage).log() == old(storage).log(),
        final(storage).sequences() == old(storage).sequences(),
        final(storage).last_sequence() == old(storage).last_sequence(),
        final(storage).logins() == old(storage).logins(),
{
    let ghost log = storage.log();
    storage.clear_resources();
    assert(storage.resources() =~= replay(log.subrange(0, 0)));
    let n = storage.event_count();
    let mut all: Vec<IndexAction> = Vec::new();
    assert(actions_view(all@) =~= replay_actions(log.subrange(0, 0)));
    let mut i: usize = 0;
    while i < n
        invariant
            storage.wf(),
            log == storage.log(),
            n == log.len(),
            i <= n,
            storage.resources() == replay(log.subrange(0, i as int)),
            actions_view(all@) == replay_actions(log.subrange(0, i as int)),
            storage.sequences() == old(storage).sequences(),
            storage.last_sequence() == old(storage).last_sequence(),
            storage.logins() == old(storage).logins(),
        decreases n - i,
    {
        let e = storage.event_at(i);
        assert(log.subrange(0, i + 1).drop_last() =~= log.subrange(0, i as int));
        match process_event(storage, &e, now) {
            Ok(actions) => {
                let mut actions = actions;
                let ghost before = all@;
                let ghost added = actions@;
                all.append(&mut actions);
                assert(actions_view(all@) =~= actions_view(before) + actions_view(added));
            },
            Err(_) => {
                assert(target_id(e@) is None);
                assert(actions_view(all@) =~= actions_view(all@) + index_actions(storage.resources(), e@));
            },
        }
        i = i + 1;
    }
    assert(log.subrange(0, n as int) =~= log);
    all
}

/// Why handling an incoming event failed.
#[derive(Debug, Clone, Copy, PartialEq, Eq, Structural)]
pub enum HandleError {
    /// The log could not take the event.
    Storage(crate::storage::StorageError),
    /// The event was logged but its commit payload is malformed.
    Process(ProcessError),
}

/// Takes in an event: logs it under the next sequence number, then applies
/// it to the resources, stamped `now`. Returns the event carrying its sequence key, and the
/// index updates. When processing fails the event stays in the log.
pub fn handle_event(storage: &mut Storage, event: CloudEvent, now: &str) -> (r: Result<(CloudEvent, Vec<IndexAction>), HandleError>)
    requires
        old(storage).wf(),
    ensures
        final(storage).wf(),
        final(storage).logins() == old(storage).logins(),
        (r matches Err(HandleError::Storage(_))) <==> old(storage).last_sequence() == u64::MAX,
        r matches Err(HandleError::Storage(_)) ==> final(storage).log() == old(storage).log()
            && final(storage).resources() == old(storage).resources(),
        old(storage).last_sequence() < u64::MAX ==> {
            &&& final(storage).last_sequence() == old(storage).last_sequence() + 1
            &&& final(storage).log() == old(storage).log().push(
                crate::storage::stored_event(
                    event@,
                    crate::text::padded_decimal(final(storage).last_sequence() as nat, crate::text::KEY_WIDTH as nat),
                ),
            )
            &&& (r matches Err(HandleError::Process(_))) <==> is_malformed(event@)
            &&& r is Err ==> final(storage).resources() == old(storage).resources()
            &&& r is Ok ==> final(storage).resources() == apply_event(old(storage).resources(), event@)
        },
        r matches Ok((e, actions)) ==> {
            &&& e@.sequence == Some(
                crate::text::padded_decimal(final(storage).last_sequence() as nat, crate::text::KEY_WIDTH as nat),
            )
            &&& e@.id == event@.id
            &&& e@.data == event@.data
            &&& actions_view(actions@) == index_actions(final(storage).resources(), event@)
        },
{
    let key = match storage.store_event(&event) {
        Ok(k) => k,
        Err(e) => {
            return Err(HandleError::Storage(e));
        },
    };
    let mut event = event;
    let ghost before = event@;
    event.sequence = Some(key);
    assert(target_id(event@) == target_id(before));
    assert(is_malformed(event@) == is_malformed(before));
    assert(apply_event(old(storage).resources(), event@) == apply_event(old(storage).resources(), before)) by {
        assert(forall|p: Option<ResourceV>| event_effect(p, event@) == event_effect(p, before));
    }
    match process_event(storage, &event, now) {
        Ok(actions) => {
            assert(index_actions(storage.resources(), event@) == index_actions(storage.resources(), before));
            Ok((event, actions))
        },
        Err(e) => Err(HandleError::Process(e)),
    }
}

} // verus!
