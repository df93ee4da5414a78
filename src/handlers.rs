//! Request-level logic: paging parameters, event listing filters and
//! resource listings.
use vstd::prelude::*;
use crate::json::{Json, JsonV};
use crate::processor::{listing_resource_type, listing_type};
use crate::schemas::{CloudEvent, CloudEventV};
use crate::search::SearchResult;
use crate::storage::{events_view, Storage};
use crate::text::{is_substring, str_contains};

verus! {

/// A resource as a listing shows it.
#[derive(Debug)]
pub struct ResourceResponse {
    pub id: String,
    pub resource_type: String,
    pub data: Json,
}

/// Paging of the resource listing.
#[derive(Debug, Clone, Copy)]
pub struct ListParams {
    pub offset: usize,
    pub limit: usize,
}

/// A search request.
#[derive(Debug)]
pub struct QueryParams {
    pub q: String,
    pub limit: usize,
}

/// Paging and filtering of the event listing.
#[derive(Debug)]
pub struct EventsListParams {
    pub offset: usize,
    pub limit: usize,
    /// Keeps events whose subject or type contains this text.
    pub topic: Option<String>,
    /// `json` asks for a plain listing instead of a stream.
    pub format: Option<String>,
    /// Resume after this sequence key.
    pub after_seq: Option<String>,
}

/// The answer to a search request.
#[derive(Debug)]
pub struct QueryResponse {
    pub query: String,
    pub results: Vec<SearchResult>,
    pub count: usize,
}

/// An error as reported to a client.
#[derive(Debug)]
pub struct ErrorResponse {
    pub error: String,
}

/// The offset used when a request names none.
pub fn default_offset() -> (r: usize)
    ensures
        r == 0,
{
    0
}

/// The limit used when a request names none.
pub fn default_limit() -> (r: usize)
    ensures
        r == 10000,
{
    10000
}

pub open spec fn ascii_lower(c: char) -> char {
    if 'A' <= c <= 'Z' {
        ((c as u8 + 32) as u8) as char
    } else {
        c
    }
}

/// The two texts are equal when ASCII letters are compared without case.
pub open spec fn eq_ignore_ascii_case(a: Seq<char>, b: Seq<char>) -> bool {
    a.len() == b.len() && forall|i: int| 0 <= i < a.len() ==> ascii_lower(a[i]) == ascii_lower(b[i])
}

fn lower_char(c: char) -> (r: char)
    ensures
        r == ascii_lower(c),
{
    if 'A' <= c && c <= 'Z' {
        (c as u8 + 32) as char
    } else {
        c
    }
}

/// Whether a listing was asked for as JSON (`format=json`, in any case).
pub fn wants_json(format: &Option<String>) -> (r: bool)
    ensures
        r == (format matches Some(f) && eq_ignore_ascii_case(f@, "json"@)),
{
    match format {
        None => false,
        Some(f) => {
            let expected = "json";
            assert(expected@ == "json"@);
            let n = f.unicode_len();
            let m = expected.unicode_len();
            if n != m {
                return false;
            }
            let mut i: usize = 0;
            let mut same = true;
            while i < n
                invariant
                    n == f@.len(),
                    m == expected@.len(),
                    expected@ == "json"@,
                    n == m,
                    i <= n,
                    same == forall|k: int| 0 <= k < i ==> ascii_lower(f@[k]) == ascii_lower(expected@[k]),
                decreases n - i,
            {
                if lower_char(f.get_char(i)) != lower_char(expected.get_char(i)) {
                    same = false;
                }
                i = i + 1;
            }
            same
        },
    }
}

/// The event's subject or type contains `topic`.
pub open spec fn matches_topic(e: CloudEventV, topic: Seq<char>) -> bool {
    (e.subject matches Some(s) && is_substring(s, topic)) || is_substring(e.event_type, topic)
}

/// The events of `evs` that match `topic`, in order.
pub open spec fn events_on_topic(evs: Seq<CloudEventV>, topic: Seq<char>) -> Seq<CloudEventV>
    decreases evs.len(),
{
    if evs.len() == 0 {
        Seq::empty()
    } else {
        let rest = events_on_topic(evs.drop_last(), topic);
        if matches_topic(evs.last(), topic) {
            rest.push(evs.last())
        } else {
            rest
        }
    }
}

/// Keeps the events whose subject or type contains `topic`, or all of them
/// when there is no topic.
pub fn filter_events_by_topic(events: Vec<CloudEvent>, topic: &Option<String>) -> (r: Vec<CloudEvent>)
    ensures
        topic is None ==> events_view(r@) == events_view(events@),
        topic matches Some(t) ==> events_view(r@) == events_on_topic(events_view(events@), t@),
{
    let t = match topic {
        None => {
            return events;
        },
        Some(t) => t,
    };
    let ghost ev = events_view(events@);
    let mut out: Vec<CloudEvent> = Vec::new();
    let mut i: usize = 0;
    assert(ev.subrange(0, 0) =~= Seq::<CloudEventV>::empty());
    assert(events_view(out@) =~= Seq::<CloudEventV>::empty());
    while i < events.len()
        invariant
            i <= events.len(),
            ev == events_view(events@),
            events_view(out@) == events_on_topic(ev.subrange(0, i as int), t@),
        decreases events.len() - i,
    {
        let e = &events[i];
        assert(ev[i as int] == e@);
        assert(ev.subrange(0, i + 1).drop_last() =~= ev.subrange(0, i as int));
        let keep = match &e.subject {
            Some(s) => str_contains(s.as_str(), t.as_str()),
            None => false,
        } || str_contains(e.event_type.as_str(), t.as_str());
        if keep {
            out.push(e.clone());
        }
        assert(events_view(out@) =~= events_on_topic(ev.subrange(0, i + 1), t@));
        i = i + 1;
    }
    assert(ev.subrange(0, i as int) =~= ev);
    out
}

/// The resource listing: a page of resources, each with the type its members
/// suggest.
pub fn list_resources(storage: &Storage, params: ListParams) -> (r: Vec<ResourceResponse>)
    requires
        storage.wf(),
    ensures
        r.len() == storage.list_resources_len(params.offset, params.limit),
        forall|i: int|
            0 <= i < r.len() ==> r[i].id@ == storage.resources()[params.offset + i].0 && r[i].data@
                == storage.resources()[params.offset + i].1.data && r[i].resource_type@ == listing_type(
                r[i].data@,
            ),
{
    let page = storage.list_resources(params.offset, params.limit);
    let mut out: Vec<ResourceResponse> = Vec::new();
    let mut i: usize = 0;
    while i < page.len()
        invariant
            i <= page.len(),
            out.len() == i,
            forall|k: int| 0 <= k < i ==> out[k].id@ == page[k].0@ && out[k].data@ == page[k].1@ && out[k].resource_type@ == listing_type(out[k].data@),
        decreases page.len() - i,
    {
        let t = listing_resource_type(&page[i].1);
        out.push(ResourceResponse { id: page[i].0.clone(), resource_type: t.to_string(), data: page[i].1.deep_copy() });
        i = i + 1;
    }
    out
}

} // verus!
