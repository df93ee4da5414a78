//! Search results: completing index hits from the stores, and keeping only
//! what the principal may see.
use vstd::prelude::*;
use crate::authz::{authorized, is_authorized};
use crate::json::{field, Json, JsonV};
use crate::schemas::{cloudevent_of, json_to_cloudevent, opt_json, CloudEvent, CloudEventV};
use crate::storage::{first_event, lookup, opt_event, Storage};
use crate::schemas::opt_str;
use crate::text::str_eq;

verus! {

/// One search hit, completed with the stored event or resource.
#[derive(Debug)]
pub struct SearchResult {
    /// The resource id, or the event id.
    pub id: String,
    /// The indexed type: a resource type, or an event type.
    pub doc_type: String,
    pub content: Option<String>,
    pub event: Option<CloudEvent>,
    pub resource: Option<Json>,
}

/// Types under which resources (rather than events) are indexed.
pub open spec fn is_resource_type(t: Seq<char>) -> bool {
    t == "issue"@ || t == "comment"@ || t == "task"@ || t == "planning"@ || t == "document"@
}

pub fn is_resource_doc_type(t: &str) -> (r: bool)
    ensures
        r == is_resource_type(t@),
{
    str_eq(t, "issue") || str_eq(t, "comment") || str_eq(t, "task") || str_eq(t, "planning") || str_eq(t, "document")
}

/// The indexed payload has the shape of an event envelope.
pub open spec fn looks_like_event(p: JsonV) -> bool {
    field(p, "specversion"@) is Some && field(p, "id"@) is Some
}

/// The model of a `SearchResult`.
pub struct SearchResultV {
    pub id: Seq<char>,
    pub doc_type: Seq<char>,
    pub content: Option<Seq<char>>,
    pub event: Option<CloudEventV>,
    pub resource: Option<JsonV>,
}

impl View for SearchResult {
    type V = SearchResultV;

    open spec fn view(&self) -> SearchResultV {
        SearchResultV {
            id: self.id@,
            doc_type: self.doc_type@,
            content: opt_str(self.content),
            event: opt_event(self.event),
            resource: opt_json(self.resource),
        }
    }
}

/// The event a hit's payload describes, if it looks like one.
pub open spec fn payload_event(payload: Option<JsonV>) -> Option<CloudEventV> {
    match payload {
        Some(p) => if looks_like_event(p) {
            cloudevent_of(p)
        } else {
            None
        },
        None => None,
    }
}

/// The resource a hit's payload holds, if it does not look like an event.
pub open spec fn payload_resource(payload: Option<JsonV>) -> Option<JsonV> {
    match payload {
        Some(p) => if looks_like_event(p) {
            None
        } else {
            Some(p)
        },
        None => None,
    }
}

/// The completed hit: the stores win over the index. A resource type is
/// looked up among the resources, any other type in the log; when neither
/// the payload nor that lookup gave anything, the log is tried by id.
pub open spec fn hydrated(
    log: Seq<CloudEventV>,
    store: Seq<(Seq<char>, crate::storage::ResourceV)>,
    id: Seq<char>,
    doc_type: Seq<char>,
    payload: Option<JsonV>,
) -> SearchResultV {
    let ev0 = payload_event(payload);
    let res0 = payload_resource(payload);
    let res1 = if is_resource_type(doc_type) {
        match lookup(store, id) {
            Some(r) => Some(r.data),
            None => res0,
        }
    } else {
        res0
    };
    let ev1 = if is_resource_type(doc_type) {
        ev0
    } else {
        match first_event(log, id) {
            Some(e) => Some(e),
            None => ev0,
        }
    };
    let ev2 = if res1 is None && ev1 is None {
        first_event(log, id)
    } else {
        ev1
    };
    SearchResultV { id, doc_type, content: None, event: ev2, resource: res1 }
}

/// Completes an index hit with the stored event or resource.
pub fn hydrate(storage: &Storage, id: &str, doc_type: &str, payload: Option<Json>) -> (r: SearchResult)
    ensures
        r@ == hydrated(storage.log(), storage.resources(), id@, doc_type@, opt_json(payload)),
{
    let mut resource: Option<Json> = None;
    let mut event: Option<CloudEvent> = None;
    match payload {
        Some(p) => {
            if p.contains_key("specversion") && p.contains_key("id") {
                event = json_to_cloudevent(&p);
            } else {
                resource = Some(p);
            }
        },
        None => {},
    }
    if is_resource_doc_type(doc_type) {
        match storage.get_resource(id) {
            Some(d) => {
                resource = Some(d);
            },
            None => {},
        }
    } else {
        match storage.get_event(id) {
            Some(e) => {
                event = Some(e);
            },
            None => {},
        }
    }
    if resource.is_none() && event.is_none() {
        event = storage.get_event(id);
    }
    SearchResult { id: id.to_string(), doc_type: doc_type.to_string(), content: None, event, resource }
}

/// The resource an event document concerns: its commit's `resource_id`.
pub open spec fn event_resource(e: Option<CloudEventV>) -> Option<Seq<char>> {
    match e {
        Some(ev) => match ev.data {
            Some(d) => match field(d, "resource_id"@) {
                Some(JsonV::Str(s)) => Some(s),
                _ => None,
            },
            None => None,
        },
        None => None,
    }
}

/// A hit may be shown to `p`: its id is a resource `p` may see, or its id
/// names no resource and it is an event about a resource `p` may see.
pub open spec fn hit_visible(store: Seq<(Seq<char>, crate::storage::ResourceV)>, p: Seq<char>, h: SearchResultV) -> bool {
    authorized(store, p, h.id, store.len()) || (lookup(store, h.id) is None && (event_resource(h.event) matches Some(
        rid,
    ) && authorized(store, p, rid, store.len())))
}

/// The hits of `hs` that `p` may see, in order.
pub open spec fn visible_hits(
    store: Seq<(Seq<char>, crate::storage::ResourceV)>,
    p: Seq<char>,
    hs: Seq<SearchResultV>,
) -> Seq<SearchResultV>
    decreases hs.len(),
{
    if hs.len() == 0 {
        Seq::empty()
    } else {
        let rest = visible_hits(store, p, hs.drop_last());
        if hit_visible(store, p, hs.last()) {
            rest.push(hs.last())
        } else {
            rest
        }
    }
}

pub open spec fn results_view(v: Seq<SearchResult>) -> Seq<SearchResultV> {
    v.map_values(|r: SearchResult| r@)
}

fn visible(storage: &Storage, principal: &str, h: &SearchResult) -> (r: bool)
    requires
        storage.wf(),
    ensures
        r == hit_visible(storage.resources(), principal@, h@),
{
    if is_authorized(storage, principal, h.id.as_str()) {
        return true;
    }
    if storage.get_resource(h.id.as_str()).is_some() {
        return false;
    }
    match &h.event {
        Some(e) => match &e.data {
            Some(d) => match d.get("resource_id") {
                Some(Json::Str(rid)) => is_authorized(storage, principal, rid.as_str()),
                _ => false,
            },
            None => false,
        },
        None => false,
    }
}

/// Keeps the hits `principal` may see: the exact check after the index
/// query, which may match more than it should.
pub fn visible_results(storage: &Storage, principal: &str, results: Vec<SearchResult>) -> (r: Vec<SearchResult>)
    requires
        storage.wf(),
    ensures
        results_view(r@) == visible_hits(storage.resources(), principal@, results_view(results@)),
{
    let ghost all = results_view(results@);
    let n = results.len();
    let mut rest = results;
    let mut out: Vec<SearchResult> = Vec::new();
    let mut i: usize = 0;
    assert(all.subrange(0, 0) =~= Seq::<SearchResultV>::empty());
    assert(results_view(out@) =~= Seq::<SearchResultV>::empty());
    while i < n
        invariant
            n == all.len(),
            i <= n,
            results_view(rest@) == all.subrange(i as int, n as int),
            rest@.len() == n - i,
            results_view(out@) == visible_hits(storage.resources(), principal@, all.subrange(0, i as int)),
            storage.wf(),
        decreases n - i,
    {
        let ghost before = rest@;
        assert(results_view(before)[0] == all[i as int]);
        let h = rest.remove(0);
        assert forall|k: int| 0 <= k < rest@.len() implies results_view(rest@)[k] == all.subrange(i + 1, n as int)[k] by {
            assert(rest@[k] == before[k + 1]);
            assert(results_view(before)[k + 1] == all.subrange(i as int, n as int)[k + 1]);
        }
        assert(results_view(rest@) =~= all.subrange(i + 1, n as int));
        assert(all.subrange(0, i + 1).drop_last() =~= all.subrange(0, i as int));
        if visible(storage, principal, &h) {
            out.push(h);
        }
        assert(results_view(out@) =~= visible_hits(storage.resources(), principal@, all.subrange(0, i + 1)));
        i = i + 1;
    }
    assert(all.subrange(0, n as int) =~= all);
    out
}

proof fn lemma_visible_hits_members(
    store: Seq<(Seq<char>, crate::storage::ResourceV)>,
    p: Seq<char>,
    hs: Seq<SearchResultV>,
)
    ensures
        forall|x: int|
            0 <= x < visible_hits(store, p, hs).len() ==> hit_visible(store, p, #[trigger] visible_hits(store, p, hs)[x]),
    decreases hs.len(),
{
    if hs.len() > 0 {
        let rest = visible_hits(store, p, hs.drop_last());
        lemma_visible_hits_members(store, p, hs.drop_last());
        assert forall|x: int| 0 <= x < visible_hits(store, p, hs).len() implies hit_visible(
            store,
            p,
            #[trigger] visible_hits(store, p, hs)[x],
        ) by {
            if x < rest.len() {
                assert(visible_hits(store, p, hs)[x] == rest[x]);
            }
        }
    }
}

/// No search result shown to `p` carries the id of a stored resource that
/// `p` may not see; in particular not one whose own `involved` list leaves
/// `p` out, nor one with no way to decide (fail closed), even when the query
/// names it exactly.
pub proof fn lemma_query_sound(
    store: Seq<(Seq<char>, crate::storage::ResourceV)>,
    p: Seq<char>,
    r: Seq<char>,
    hs: Seq<SearchResultV>,
)
    requires
        lookup(store, r) is Some,
        !authorized(store, p, r, store.len()),
    ensures
        forall|x: int| 0 <= x < visible_hits(store, p, hs).len() ==> (#[trigger] visible_hits(store, p, hs)[x]).id != r,
{
    lemma_visible_hits_members(store, p, hs);
}

/// Every hit whose id is a resource `p` may see is kept.
pub proof fn lemma_query_keeps_visible(
    store: Seq<(Seq<char>, crate::storage::ResourceV)>,
    p: Seq<char>,
    hs: Seq<SearchResultV>,
    i: int,
)
    requires
        0 <= i < hs.len(),
        authorized(store, p, hs[i].id, store.len()),
    ensures
        visible_hits(store, p, hs).contains(hs[i]),
    decreases hs.len(),
{
    let rest = visible_hits(store, p, hs.drop_last());
    if i == hs.len() - 1 {
        assert(visible_hits(store, p, hs)[rest.len() as int] == hs[i]);
    } else {
        lemma_query_keeps_visible(store, p, hs.drop_last(), i);
        let k = choose|k: int| 0 <= k < rest.len() && rest[k] == hs[i];
        if hit_visible(store, p, hs.last()) {
            assert(visible_hits(store, p, hs)[k] == hs[i]);
        } else {
            assert(visible_hits(store, p, hs)[k] == hs[i]);
        }
    }
}

} // verus!
