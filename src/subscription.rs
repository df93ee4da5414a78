//! The live subscription protocol: authenticate, deliver an authorized
//! snapshot of the log, then stream authorized events as they are appended.
//!
//! The decisions are made here; the caller performs the waiting and the
//! sending, and reports back what happened.
use vstd::prelude::*;
use crate::authz::{
    authorized, authorized_topics, index_payload, is_authorized, lists_principal, parent_ref, strings_view, topics,
    topics_upto,
};
use crate::json::{distinct_keys, field, get_key, has_key, lemma_key_index_found, members_of, put_key};
use crate::schemas::{CloudEvent, CloudEventV};
use crate::storage::{events_after, events_view, lookup, take, ResourceV, Storage};
use crate::text::str_eq;

verus! {

/// The subject of events meant for every subscriber.
pub const SYSTEM_SUBJECT: &'static str = "system";

/// Where a subscription stands.
#[derive(Debug, Clone, Copy, PartialEq, Eq, Structural)]
pub enum SubscriptionState {
    Connecting,
    Authenticating,
    Snapshotting,
    Streaming,
    Closed,
}

/// A subscriber's side of the protocol.
#[derive(Debug)]
pub struct Subscription {
    pub state: SubscriptionState,
    /// The authenticated user (empty before authentication).
    pub principal: String,
    /// The resources found visible when the snapshot was taken.
    pub topics: Vec<String>,
}

/// Event `e` concerns a topic of the subscriber, or everyone.
pub open spec fn in_topics(topics: Seq<Seq<char>>, e: CloudEventV) -> bool {
    match e.subject {
        Some(s) => topics.contains(s) || s == SYSTEM_SUBJECT@,
        None => false,
    }
}

/// The events of `evs` that concern the topics, in order.
pub open spec fn topic_events(evs: Seq<CloudEventV>, topics: Seq<Seq<char>>) -> Seq<CloudEventV>
    decreases evs.len(),
{
    if evs.len() == 0 {
        Seq::empty()
    } else {
        let rest = topic_events(evs.drop_last(), topics);
        if in_topics(topics, evs.last()) {
            rest.push(evs.last())
        } else {
            rest
        }
    }
}

/// A live event is delivered when its subject is a known topic, is for
/// everyone, or is a resource the principal may see now.
pub open spec fn deliverable(
    store: Seq<(Seq<char>, ResourceV)>,
    principal: Seq<char>,
    topics: Seq<Seq<char>>,
    e: CloudEventV,
) -> bool {
    in_topics(topics, e) || (e.subject matches Some(s) && authorized(store, principal, s, store.len()))
}

/// Whether `s` is among `v`.
pub fn contains_string(v: &Vec<String>, s: &str) -> (r: bool)
    ensures
        r == strings_view(v@).contains(s@),
{
    let mut i: usize = 0;
    while i < v.len()
        invariant
            i <= v.len(),
            forall|k: int| 0 <= k < i ==> v[k]@ != s@,
        decreases v.len() - i,
    {
        if str_eq(v[i].as_str(), s) {
            assert(strings_view(v@)[i as int] == s@);
            return true;
        }
        i = i + 1;
    }
    assert forall|k: int| 0 <= k < strings_view(v@).len() implies strings_view(v@)[k] != s@ by {
        assert(strings_view(v@)[k] == v[k]@);
    }
    false
}

fn concerns_topics(topics: &Vec<String>, e: &CloudEvent) -> (r: bool)
    ensures
        r == in_topics(strings_view(topics@), e@),
{
    match &e.subject {
        Some(s) => contains_string(topics, s.as_str()) || str_eq(s.as_str(), SYSTEM_SUBJECT),
        None => false,
    }
}

impl Subscription {
    /// A subscription whose transport has just connected.
    pub fn new() -> (r: Subscription)
        ensures
            r.state == SubscriptionState::Connecting,
            r.topics@.len() == 0,
    {
        Subscription { state: SubscriptionState::Connecting, principal: String::new(), topics: Vec::new() }
    }

    /// The caller is about to present credentials.
    pub fn begin_authentication(&mut self)
        requires
            old(self).state == SubscriptionState::Connecting,
        ensures
            final(self).state == SubscriptionState::Authenticating,
            final(self).principal == old(self).principal,
            final(self).topics == old(self).topics,
    {
        self.state = SubscriptionState::Authenticating;
    }

    /// Takes the outcome of verifying the caller's token: the user it names,
    /// or nothing when it did not verify. Without a user the subscription
    /// closes as unauthorized and `false` is returned.
    pub fn authenticate(&mut self, verified_user: Option<String>) -> (r: bool)
        requires
            old(self).state == SubscriptionState::Authenticating,
        ensures
            r == verified_user is Some,
            r ==> final(self).state == SubscriptionState::Snapshotting && final(self).principal@
                == verified_user.unwrap()@,
            !r ==> final(self).state == SubscriptionState::Closed,
    {
        match verified_user {
            Some(u) => {
                self.principal = u;
                self.state = SubscriptionState::Snapshotting;
                true
            },
            None => {
                self.state = SubscriptionState::Closed;
                false
            },
        }
    }

    /// Builds the snapshot: the events after cursor `after` (at most `limit`
    /// of them are looked at), of which those that concern a resource the
    /// principal is involved in, or everyone. The subscription then streams.
    pub fn take_snapshot(&mut self, storage: &Storage, after: Option<String>, limit: usize) -> (r: Vec<CloudEvent>)
        requires
            old(self).state == SubscriptionState::Snapshotting,
            storage.wf(),
        ensures
            final(self).state == SubscriptionState::Streaming,
            final(self).principal == old(self).principal,
            strings_view(final(self).topics@) == topics(storage.resources(), old(self).principal@),
            events_view(r@) == topic_events(
                take(events_after(storage.log(), crate::schemas::opt_str(after)), limit as int),
                strings_view(final(self).topics@),
            ),
    {
        let topics = authorized_topics(storage, self.principal.as_str());
        let evs = storage.list_events_after(after, limit);
        let ghost tv = strings_view(topics@);
        let ghost ev = events_view(evs@);
        let mut out: Vec<CloudEvent> = Vec::new();
        let mut i: usize = 0;
        assert(ev.subrange(0, 0) =~= Seq::<CloudEventV>::empty());
        assert(events_view(out@) =~= Seq::<CloudEventV>::empty());
        while i < evs.len()
            invariant
                i <= evs.len(),
                tv == strings_view(topics@),
                ev == events_view(evs@),
                events_view(out@) == topic_events(ev.subrange(0, i as int), tv),
            decreases evs.len() - i,
        {
            assert(ev.subrange(0, i + 1).drop_last() =~= ev.subrange(0, i as int));
            assert(ev[i as int] == evs[i as int]@);
            if concerns_topics(&topics, &evs[i]) {
                out.push(evs[i].clone());
            }
            assert(events_view(out@) =~= topic_events(ev.subrange(0, i + 1), tv));
            i = i + 1;
        }
        assert(ev.subrange(0, i as int) =~= ev);
        self.topics = topics;
        self.state = SubscriptionState::Streaming;
        out
    }

    /// Decides on a newly appended event: `Some` when it is to be delivered.
    /// Known topics are checked first; otherwise the principal's access to
    /// the event's subject is checked against the current resources.
    pub fn deliver(&self, storage: &Storage, event: &CloudEvent) -> (r: Option<CloudEvent>)
        requires
            self.state == SubscriptionState::Streaming,
            storage.wf(),
        ensures
            r is Some <==> deliverable(storage.resources(), self.principal@, strings_view(self.topics@), event@),
            r matches Some(e) ==> e@ == event@,
    {
        if concerns_topics(&self.topics, event) {
            return Some(event.clone());
        }
        match &event.subject {
            Some(s) => {
                if is_authorized(storage, self.principal.as_str(), s.as_str()) {
                    Some(event.clone())
                } else {
                    None
                }
            },
            None => None,
        }
    }

    /// The subscriber fell behind the broadcast buffer and missed events: it
    /// must start over from a fresh snapshot.
    pub fn lagged(&mut self)
        requires
            old(self).state == SubscriptionState::Streaming,
        ensures
            final(self).state == SubscriptionState::Snapshotting,
            final(self).principal == old(self).principal,
    {
        self.state = SubscriptionState::Snapshotting;
    }

    /// The transport went away.
    pub fn disconnect(&mut self)
        ensures
            final(self).state == SubscriptionState::Closed,
    {
        self.state = SubscriptionState::Closed;
    }
}

proof fn lemma_lookup_at(store: Seq<(Seq<char>, ResourceV)>, m: int)
    requires
        distinct_keys(store),
        0 <= m < store.len(),
    ensures
        lookup(store, store[m].0) == Some(store[m].1),
{
    let k = store[m].0;
    assert(has_key(store, k));
    lemma_key_index_found(store, k);
}

proof fn lemma_put_key_get<V>(ms: Seq<(Seq<char>, V)>, k: Seq<char>, v: V)
    ensures
        has_key(put_key(ms, k, v), k),
        get_key(put_key(ms, k, v), k) == v,
{
    let out = put_key(ms, k, v);
    if has_key(ms, k) {
        lemma_key_index_found(ms, k);
        let idx = crate::json::key_index(ms, k);
        assert(crate::json::is_first_key(out, k, idx));
        assert(has_key(out, k));
        lemma_key_index_found(out, k);
    } else {
        crate::json::lemma_key_index_absent(ms, k);
        assert(crate::json::is_first_key(out, k, ms.len() as int));
        assert(has_key(out, k));
        lemma_key_index_found(out, k);
    }
}

proof fn lemma_topics_upto_members(store: Seq<(Seq<char>, ResourceV)>, n: int, p: Seq<char>, s: Seq<char>)
    requires
        0 <= n <= store.len(),
        topics_upto(store, n, p).contains(s),
    ensures
        exists|m: int|
            0 <= m < n && store[m].0 == s && #[trigger] lists_principal(
                index_payload(store, store[m].1.resource_type, store[m].1.data),
                p,
            ),
    decreases n,
{
    let rest = topics_upto(store, n - 1, p);
    let e = store[n - 1];
    if lists_principal(index_payload(store, e.1.resource_type, e.1.data), p) && e.0 == s {
    } else {
        if lists_principal(index_payload(store, e.1.resource_type, e.1.data), p) {
            let i = choose|i: int| 0 <= i < rest.push(e.0).len() && rest.push(e.0)[i] == s;
            assert(i < rest.len());
            assert(rest[i] == s);
        }
        assert(rest.contains(s));
        lemma_topics_upto_members(store, n - 1, p, s);
    }
}

proof fn lemma_topics_upto_includes(store: Seq<(Seq<char>, ResourceV)>, n: int, p: Seq<char>, m: int)
    requires
        0 <= m < n <= store.len(),
        lists_principal(index_payload(store, store[m].1.resource_type, store[m].1.data), p),
    ensures
        topics_upto(store, n, p).contains(store[m].0),
    decreases n,
{
    let rest = topics_upto(store, n - 1, p);
    if m == n - 1 {
        assert(topics_upto(store, n, p) == rest.push(store[m].0));
        assert(topics_upto(store, n, p)[rest.len() as int] == store[m].0);
    } else {
        lemma_topics_upto_includes(store, n - 1, p, m);
        let i = choose|i: int| 0 <= i < rest.len() && rest[i] == store[m].0;
        let e = store[n - 1];
        if lists_principal(index_payload(store, e.1.resource_type, e.1.data), p) {
            assert(rest.push(e.0)[i] == store[m].0);
        }
    }
}

/// Every topic found for a principal is a resource the principal may see:
/// its own `involved` list names the principal, or it is a comment whose
/// parent's list does.
pub proof fn lemma_topics_authorized(store: Seq<(Seq<char>, ResourceV)>, p: Seq<char>, s: Seq<char>)
    requires
        distinct_keys(store),
        topics(store, p).contains(s),
    ensures
        authorized(store, p, s, store.len()),
{
    lemma_topics_upto_members(store, store.len() as int, p, s);
    let m = choose|m: int|
        0 <= m < store.len() && store[m].0 == s && #[trigger] lists_principal(
            index_payload(store, store[m].1.resource_type, store[m].1.data),
            p,
        );
    lemma_lookup_at(store, m);
    let r = store[m].1;
    let d = r.data;
    if r.resource_type == "comment"@ && d is Object && field(d, "involved"@) is None {
        match parent_ref(d) {
            Some(pid) => match lookup(store, pid) {
                Some(parent) => match field(parent.data, "involved"@) {
                    Some(inv) => {
                        lemma_put_key_get(members_of(d), "involved"@, inv);
                        assert(field(index_payload(store, r.resource_type, d), "involved"@) == Some(inv));
                        assert(lists_principal(parent.data, p));
                        assert(authorized(store, p, pid, (store.len() - 1) as nat));
                    },
                    None => {},
                },
                None => {},
            },
            None => {},
        }
    }
}

/// Authorization soundness: a resource that lists the principal in its own
/// `involved` array is visible to that principal, and one whose own
/// `involved` member exists but does not list the principal is not visible,
/// whatever parent it names.
pub proof fn lemma_involved_decides(store: Seq<(Seq<char>, ResourceV)>, p: Seq<char>, id: Seq<char>, fuel: nat)
    requires
        lookup(store, id) is Some,
        crate::json::field(lookup(store, id).unwrap().data, "involved"@) is Some,
    ensures
        authorized(store, p, id, fuel) == lists_principal(lookup(store, id).unwrap().data, p),
{
}

/// Fail-closed default: a resource without its own `involved` member and
/// without a parent reference is visible to no principal.
pub proof fn lemma_fail_closed(store: Seq<(Seq<char>, ResourceV)>, p: Seq<char>, id: Seq<char>, fuel: nat)
    requires
        lookup(store, id) matches Some(r) ==> crate::json::field(r.data, "involved"@) is None
            && crate::authz::parent_ref(r.data) is None,
    ensures
        !authorized(store, p, id, fuel),
{
}

/// Everything a subscriber is sent, in the snapshot or live, concerns a
/// resource the principal may see, or everyone.
pub proof fn lemma_delivery_sound(store: Seq<(Seq<char>, ResourceV)>, p: Seq<char>, e: CloudEventV)
    requires
        distinct_keys(store),
        deliverable(store, p, topics(store, p), e),
    ensures
        e.subject matches Some(s) && (s == SYSTEM_SUBJECT@ || authorized(store, p, s, store.len())),
{
    let s = e.subject.unwrap();
    if topics(store, p).contains(s) {
        lemma_topics_authorized(store, p, s);
    }
}

proof fn lemma_topic_events_members(evs: Seq<CloudEventV>, topics: Seq<Seq<char>>)
    ensures
        forall|x: int| 0 <= x < topic_events(evs, topics).len() ==> in_topics(topics, #[trigger] topic_events(evs, topics)[x]),
    decreases evs.len(),
{
    if evs.len() > 0 {
        let rest = topic_events(evs.drop_last(), topics);
        lemma_topic_events_members(evs.drop_last(), topics);
        assert forall|x: int| 0 <= x < topic_events(evs, topics).len() implies in_topics(
            topics,
            #[trigger] topic_events(evs, topics)[x],
        ) by {
            if x < rest.len() {
                assert(topic_events(evs, topics)[x] == rest[x]);
            }
        }
    }
}

/// A principal listed in a resource's own `involved` array has the resource
/// among its topics, so the snapshot keeps the resource's events, and is
/// delivered every live event about it.
pub proof fn lemma_listed_principal_receives(store: Seq<(Seq<char>, ResourceV)>, p: Seq<char>, r: Seq<char>, e: CloudEventV)
    requires
        distinct_keys(store),
        lookup(store, r) matches Some(res) && lists_principal(res.data, p),
    ensures
        topics(store, p).contains(r),
        e.subject == Some(r) ==> in_topics(topics(store, p), e) && deliverable(store, p, topics(store, p), e),
{
    lemma_key_index_found(store, r);
    let m = crate::json::key_index(store, r);
    lemma_topics_upto_includes(store, store.len() as int, p, m);
}

/// A principal that a resource's own `involved` array leaves out gets none of
/// its events: not in the snapshot, and not live.
pub proof fn lemma_unlisted_principal_excluded(
    store: Seq<(Seq<char>, ResourceV)>,
    p: Seq<char>,
    r: Seq<char>,
    evs: Seq<CloudEventV>,
    e: CloudEventV,
)
    requires
        distinct_keys(store),
        lookup(store, r) matches Some(res) && field(res.data, "involved"@) is Some && !lists_principal(res.data, p),
        r != SYSTEM_SUBJECT@,
    ensures
        !topics(store, p).contains(r),
        forall|x: int|
            0 <= x < topic_events(evs, topics(store, p)).len() ==> (#[trigger] topic_events(evs, topics(store, p))[x]).subject
                != Some(r),
        e.subject == Some(r) ==> !deliverable(store, p, topics(store, p), e),
{
    if topics(store, p).contains(r) {
        lemma_topics_authorized(store, p, r);
    }
    lemma_topic_events_members(evs, topics(store, p));
}

} // verus!
