//! The event log and the resource projection store.
//!
//! Events are kept in the order of their sequence numbers, which the log
//! assigns itself and which strictly increase. Resources are kept under their
//! id, one current value each.
use vstd::prelude::*;
use crate::json::{
    get_key, has_key, key_index, put_key, remove_key, distinct_keys, lemma_key_index_absent,
    lemma_key_index_found, Json, JsonV,
};
use crate::schemas::{copy_opt_json, copy_opt_str, opt_json, opt_str, CloudEvent, CloudEventV};
use crate::text::{padded_decimal, seq_lt, sequence_key, str_eq, str_lt, KEY_WIDTH};

verus! {

/// An event as the log keeps it.
#[derive(Debug)]
pub struct EventRecord {
    pub id: String,
    pub event_type: String,
    pub source: String,
    pub subject: Option<String>,
    pub time: Option<String>,
    pub sequence: Option<String>,
    pub data: Option<Json>,
}

/// A resource as the projection store keeps it.
#[derive(Debug)]
pub struct ResourceRecord {
    pub id: String,
    /// issue, comment, task, planning, document or unknown
    pub resource_type: String,
    pub data: Json,
    pub updated_at: String,
}

/// A login link that has been sent and not yet used.
#[derive(Debug, Clone)]
pub struct PendingLoginRecord {
    pub email: String,
    /// Unix time in seconds.
    pub expires_at: i64,
}

/// The model of a stored resource: its type and its value.
pub struct ResourceV {
    pub resource_type: Seq<char>,
    pub data: JsonV,
}

/// Failures of the event log.
#[derive(Debug, Clone, Copy, PartialEq, Eq, Structural)]
pub enum StorageError {
    /// Every sequence number has been handed out.
    SequenceExhausted,
    /// A restored event must come after every event in the log.
    OutOfOrder,
}

/// The event a record stands for, as the log hands it out.
pub open spec fn record_event(r: EventRecord) -> CloudEventV {
    CloudEventV {
        specversion: "1.0"@,
        id: r.id@,
        source: r.source@,
        subject: opt_str(r.subject),
        event_type: r.event_type@,
        time: opt_str(r.time),
        datacontenttype: Some("application/json"@),
        dataschema: None,
        dataref: None,
        sequence: opt_str(r.sequence),
        sequencetype: None,
        data: opt_json(r.data),
    }
}

/// The event `e` as the log keeps it under key `key`.
pub open spec fn stored_event(e: CloudEventV, key: Seq<char>) -> CloudEventV {
    CloudEventV {
        specversion: "1.0"@,
        id: e.id,
        source: e.source,
        subject: e.subject,
        event_type: e.event_type,
        time: e.time,
        datacontenttype: Some("application/json"@),
        dataschema: None,
        dataref: None,
        sequence: Some(key),
        sequencetype: None,
        data: e.data,
    }
}

/// The key of an event in the log (empty for an event without one).
pub open spec fn event_key(e: CloudEventV) -> Seq<char> {
    match e.sequence {
        Some(k) => k,
        None => Seq::empty(),
    }
}

/// The event comes after cursor `after` (every event does when there is none).
pub open spec fn is_after(e: CloudEventV, after: Option<Seq<char>>) -> bool {
    match after {
        None => true,
        Some(a) => seq_lt(a, event_key(e)),
    }
}

/// The events of `evs` that come after cursor `after`, in order.
pub open spec fn events_after(evs: Seq<CloudEventV>, after: Option<Seq<char>>) -> Seq<CloudEventV>
    decreases evs.len(),
{
    if evs.len() == 0 {
        Seq::empty()
    } else {
        let rest = events_after(evs.drop_last(), after);
        if is_after(evs.last(), after) {
            rest.push(evs.last())
        } else {
            rest
        }
    }
}

pub open spec fn opt_event(e: Option<CloudEvent>) -> Option<CloudEventV> {
    match e {
        Some(e) => Some(e@),
        None => None,
    }
}

/// `i` is the first position of the log holding an event with id `id`.
pub open spec fn is_first_event(log: Seq<CloudEventV>, id: Seq<char>, i: int) -> bool {
    &&& 0 <= i < log.len()
    &&& log[i].id == id
    &&& forall|j: int| 0 <= j < i ==> log[j].id != id
}

/// The first event of the log with id `id`.
pub open spec fn first_event(log: Seq<CloudEventV>, id: Seq<char>) -> Option<CloudEventV> {
    if exists|i: int| is_first_event(log, id, i) {
        Some(log[choose|i: int| is_first_event(log, id, i)])
    } else {
        None
    }
}

/// At most the first `limit` items of `s`.
pub open spec fn take<A>(s: Seq<A>, limit: int) -> Seq<A> {
    if s.len() <= limit {
        s
    } else {
        s.subrange(0, limit)
    }
}

pub open spec fn events_view(v: Seq<CloudEvent>) -> Seq<CloudEventV> {
    v.map_values(|e: CloudEvent| e@)
}

proof fn lemma_events_after_prefix(evs: Seq<CloudEventV>, after: Option<Seq<char>>, j: int)
    requires
        0 <= j <= evs.len(),
    ensures
        events_after(evs.subrange(0, j), after).len() <= events_after(evs, after).len(),
        events_after(evs, after).subrange(0, events_after(evs.subrange(0, j), after).len() as int)
            == events_after(evs.subrange(0, j), after),
    decreases evs.len(),
{
    if j == evs.len() {
        assert(evs.subrange(0, j) =~= evs);
        assert(events_after(evs, after).subrange(0, events_after(evs, after).len() as int) =~= events_after(
            evs,
            after,
        ));
    } else {
        let d = evs.drop_last();
        lemma_events_after_prefix(d, after, j);
        assert(d.subrange(0, j) =~= evs.subrange(0, j));
        let p = events_after(evs.subrange(0, j), after);
        let full = events_after(evs, after);
        let rest = events_after(d, after);
        assert(full.subrange(0, p.len() as int) =~= rest.subrange(0, p.len() as int));
    }
}

/// The resource entries of the store: id with type and value.
pub open spec fn resources_view(rs: Seq<ResourceRecord>) -> Seq<(Seq<char>, ResourceV)> {
    Seq::new(rs.len(), |i: int| (rs[i].id@, ResourceV { resource_type: rs[i].resource_type@, data: rs[i].data@ }))
}

/// The current value of resource `id`, if there is one.
pub open spec fn lookup(rs: Seq<(Seq<char>, ResourceV)>, id: Seq<char>) -> Option<ResourceV> {
    if has_key(rs, id) {
        Some(get_key(rs, id))
    } else {
        None
    }
}

pub open spec fn logins_view(ls: Seq<(String, PendingLoginRecord)>) -> Seq<(Seq<char>, (Seq<char>, i64))> {
    Seq::new(ls.len(), |i: int| (ls[i].0@, (ls[i].1.email@, ls[i].1.expires_at)))
}

/// Events, resources and pending logins, kept in memory.
pub struct Storage {
    events: Vec<EventRecord>,
    seqs: Vec<u64>,
    last_seq: u64,
    resources: Vec<ResourceRecord>,
    pending_logins: Vec<(String, PendingLoginRecord)>,
}

impl Storage {
    /// The events in the log, in sequence order, as `list_events_after` hands
    /// them out.
    pub closed spec fn log(&self) -> Seq<CloudEventV> {
        Seq::new(self.events@.len(), |i: int| record_event(self.events[i]))
    }

    /// The sequence number of each event in the log.
    pub closed spec fn sequences(&self) -> Seq<u64> {
        self.seqs@
    }

    /// The last sequence number handed out (0 when none was).
    pub closed spec fn last_sequence(&self) -> u64 {
        self.last_seq
    }

    /// The resources: id with type and value.
    pub closed spec fn resources(&self) -> Seq<(Seq<char>, ResourceV)> {
        resources_view(self.resources@)
    }

    /// The pending logins: token with email and expiry.
    pub closed spec fn logins(&self) -> Seq<(Seq<char>, (Seq<char>, i64))> {
        logins_view(self.pending_logins@)
    }

    pub closed spec fn wf(&self) -> bool {
        &&& self.seqs.len() == self.events.len()
        &&& forall|i: int, j: int| 0 <= i < j < self.seqs.len() ==> self.seqs[i] < self.seqs[j]
        &&& forall|i: int| 0 <= i < self.seqs.len() ==> self.seqs[i] <= self.last_seq
        &&& forall|i: int|
            0 <= i < self.events.len() ==> opt_str(#[trigger] self.events[i].sequence) == Some(
                padded_decimal(self.seqs[i] as nat, KEY_WIDTH as nat),
            )
        &&& sorted_keys(self.resources())
        &&& distinct_keys(self.logins())
    }

    pub proof fn lemma_wf(&self)
        requires
            self.wf(),
        ensures
            self.sequences().len() == self.log().len(),
            forall|i: int, j: int|
                0 <= i < j < self.sequences().len() ==> self.sequences()[i] < self.sequences()[j],
            forall|i: int| 0 <= i < self.sequences().len() ==> self.sequences()[i] <= self.last_sequence(),
            forall|i: int|
                0 <= i < self.log().len() ==> #[trigger] self.log()[i].sequence == Some(
                    padded_decimal(self.sequences()[i] as nat, KEY_WIDTH as nat),
                ),
            distinct_keys(self.resources()),
            sorted_keys(self.resources()),
            distinct_keys(self.logins()),
    {
        lemma_sorted_distinct(self.resources());
        assert forall|i: int| 0 <= i < self.log().len() implies #[trigger] self.log()[i].sequence == Some(
            padded_decimal(self.sequences()[i] as nat, KEY_WIDTH as nat),
        ) by {
            assert(opt_str(self.events[i].sequence) == Some(padded_decimal(self.seqs[i] as nat, KEY_WIDTH as nat)));
        }
    }

    /// An empty store.
    pub fn new() -> (r: Storage)
        ensures
            r.wf(),
            r.log().len() == 0,
            r.last_sequence() == 0,
            r.resources().len() == 0,
            r.logins().len() == 0,
    {
        let r = Storage {
            events: Vec::new(),
            seqs: Vec::new(),
            last_seq: 0,
            resources: Vec::new(),
            pending_logins: Vec::new(),
        };
        assert(r.resources() =~= Seq::empty());
        assert(r.logins() =~= Seq::empty());
        r
    }

    /// Appends `event` to the log under the next sequence number and returns
    /// its key: the number in decimal, zero-padded to a fixed width.
    pub fn store_event(&mut self, event: &CloudEvent) -> (r: Result<String, StorageError>)
        requires
            old(self).wf(),
        ensures
            final(self).wf(),
            final(self).resources() == old(self).resources(),
            final(self).logins() == old(self).logins(),
            r is Err <==> old(self).last_sequence() == u64::MAX,
            r is Err ==> final(self).log() == old(self).log() && final(self).sequences() == old(self).sequences()
                && final(self).last_sequence() == old(self).last_sequence(),
            r matches Ok(key) ==> {
                &&& final(self).last_sequence() == old(self).last_sequence() + 1
                &&& key@ == padded_decimal(final(self).last_sequence() as nat, KEY_WIDTH as nat)
                &&& final(self).sequences() == old(self).sequences().push(final(self).last_sequence())
                &&& final(self).log() == old(self).log().push(stored_event(event@, key@))
            },
    {
        if self.last_seq == u64::MAX {
            return Err(StorageError::SequenceExhausted);
        }
        let seq = self.last_seq + 1;
        let key = sequence_key(seq);
        let record = EventRecord {
            id: event.id.clone(),
            event_type: event.event_type.clone(),
            source: event.source.clone(),
            subject: copy_opt_str(&event.subject),
            time: copy_opt_str(&event.time),
            sequence: Some(key.clone()),
            data: copy_opt_json(&event.data),
        };
        let ghost old_log = self.log();
        self.events.push(record);
        self.seqs.push(seq);
        self.last_seq = seq;
        proof {
            assert(self.log() =~= old_log.push(stored_event(event@, key@)));
            assert(forall|i: int| 0 <= i < self.events.len() - 1 ==> self.events[i] == old(self).events[i]);
        }
        Ok(key)
    }

    /// Puts back an event that was logged before under sequence number
    /// `seq`, for instance when loading a saved log: the key is that of
    /// `seq`, which must exceed every number handed out so far.
    pub fn restore_event(&mut self, event: &CloudEvent, seq: u64) -> (r: Result<String, StorageError>)
        requires
            old(self).wf(),
        ensures
            final(self).wf(),
            final(self).resources() == old(self).resources(),
            final(self).logins() == old(self).logins(),
            r is Err <==> seq <= old(self).last_sequence(),
            r matches Err(e) ==> e == StorageError::OutOfOrder && final(self).log() == old(self).log()
                && final(self).sequences() == old(self).sequences() && final(self).last_sequence()
                == old(self).last_sequence(),
            r matches Ok(key) ==> {
                &&& final(self).last_sequence() == seq
                &&& key@ == padded_decimal(seq as nat, KEY_WIDTH as nat)
                &&& final(self).sequences() == old(self).sequences().push(seq)
                &&& final(self).log() == old(self).log().push(stored_event(event@, key@))
            },
    {
        if seq <= self.last_seq {
            return Err(StorageError::OutOfOrder);
        }
        let key = sequence_key(seq);
        let record = EventRecord {
            id: event.id.clone(),
            event_type: event.event_type.clone(),
            source: event.source.clone(),
            subject: copy_opt_str(&event.subject),
            time: copy_opt_str(&event.time),
            sequence: Some(key.clone()),
            data: copy_opt_json(&event.data),
        };
        let ghost old_log = self.log();
        self.events.push(record);
        self.seqs.push(seq);
        self.last_seq = seq;
        proof {
            assert(self.log() =~= old_log.push(stored_event(event@, key@)));
            assert(forall|i: int| 0 <= i < self.events.len() - 1 ==> self.events[i] == old(self).events[i]);
        }
        Ok(key)
    }

    fn record_to_event(r: &EventRecord) -> (e: CloudEvent)
        ensures
            e@ == record_event(*r),
    {
        let e = CloudEvent {
            specversion: String::from_str("1.0"),
            id: r.id.clone(),
            source: r.source.clone(),
            subject: copy_opt_str(&r.subject),
            event_type: r.event_type.clone(),
            time: copy_opt_str(&r.time),
            datacontenttype: Some(String::from_str("application/json")),
            dataschema: None,
            dataref: None,
            sequence: copy_opt_str(&r.sequence),
            sequencetype: None,
            data: copy_opt_json(&r.data),
        };
        e
    }

    /// The events after cursor `after_seq` (all events when there is none), in
    /// sequence order, at most `limit` of them.
    pub fn list_events_after(&self, after_seq: Option<String>, limit: usize) -> (r: Vec<CloudEvent>)
        ensures
            events_view(r@) == take(events_after(self.log(), opt_str(after_seq)), limit as int),
    {
        let ghost log = self.log();
        let ghost after = opt_str(after_seq);
        let mut out: Vec<CloudEvent> = Vec::new();
        if limit == 0 {
            assert(events_view(out@) =~= take(events_after(log, after), 0));
            return out;
        }
        let mut i: usize = 0;
        assert(log.subrange(0, 0) =~= Seq::<CloudEventV>::empty());
        while i < self.events.len()
            invariant
                log == self.log(),
                after == opt_str(after_seq),
                i <= self.events.len(),
                limit > 0,
                events_view(out@) == events_after(log.subrange(0, i as int), after),
                out.len() < limit,
            decreases self.events.len() - i,
        {
            let rec = &self.events[i];
            let keep = match &after_seq {
                None => true,
                Some(a) => match &rec.sequence {
                    Some(k) => str_lt(a.as_str(), k.as_str()),
                    None => str_lt(a.as_str(), ""),
                },
            };
            proof {
                assert(log[i as int] == record_event(*rec));
                if after_seq is Some {
                    if rec.sequence is None {
                        reveal_strlit("");
                        assert(event_key(log[i as int]) =~= ""@);
                    }
                }
                assert(keep == is_after(log[i as int], after));
                assert(log.subrange(0, i + 1).drop_last() =~= log.subrange(0, i as int));
            }
            if keep {
                let e = Self::record_to_event(rec);
                out.push(e);
                assert(events_view(out@) =~= events_after(log.subrange(0, i + 1), after));
                if out.len() >= limit {
                    proof {
                        lemma_events_after_prefix(log, after, i + 1);
                        assert(events_view(out@) =~= take(events_after(log, after), limit as int));
                    }
                    return out;
                }
            }
            i = i + 1;
        }
        assert(log.subrange(0, i as int) =~= log);
        out
    }

    /// The first event in the log with id `id`.
    pub fn get_event(&self, id: &str) -> (r: Option<CloudEvent>)
        ensures
            opt_event(r) == first_event(self.log(), id@),
    {
        let mut i: usize = 0;
        while i < self.events.len()
            invariant
                i <= self.events.len(),
                forall|j: int| 0 <= j < i ==> self.log()[j].id != id@,
            decreases self.events.len() - i,
        {
            if str_eq(self.events[i].id.as_str(), id) {
                let e = Self::record_to_event(&self.events[i]);
                assert(self.log()[i as int] == record_event(self.events[i as int]));
                assert(is_first_event(self.log(), id@, i as int));
                assert(forall|j: int| is_first_event(self.log(), id@, j) ==> j == i);
                return Some(e);
            }
            i = i + 1;
        }
        assert(forall|j: int| !is_first_event(self.log(), id@, j));
        None
    }

    /// Pages through the log by position: the events after the first
    /// `offset`, at most `limit` of them. When the log holds fewer than
    /// `offset` events the listing starts from the beginning.
    pub fn list_events(&self, offset: usize, limit: usize) -> (r: Vec<CloudEvent>)
        ensures
            offset == 0 || offset > self.log().len() ==> events_view(r@) == take(
                events_after(self.log(), None),
                limit as int,
            ),
            0 < offset <= self.log().len() ==> events_view(r@) == take(
                events_after(self.log(), self.log()[offset - 1].sequence),
                limit as int,
            ),
    {
        if offset == 0 || offset > self.events.len() {
            return self.list_events_after(None, limit);
        }
        let after = copy_opt_str(&self.events[offset - 1].sequence);
        assert(self.log()[offset - 1] == record_event(self.events[offset - 1]));
        self.list_events_after(after, limit)
    }

    fn find_resource(&self, id: &str) -> (r: Option<usize>)
        ensures
            match r {
                Some(i) => key_index(self.resources(), id@) == i && i < self.resources.len(),
                None => key_index(self.resources(), id@) == -1,
            },
            r is Some <==> has_key(self.resources(), id@),
    {
        let ghost rv = self.resources();
        let mut i: usize = 0;
        while i < self.resources.len()
            invariant
                i <= self.resources.len(),
                rv == self.resources(),
                forall|j: int| 0 <= j < i ==> rv[j].0 != id@,
            decreases self.resources.len() - i,
        {
            if str_eq(self.resources[i].id.as_str(), id) {
                assert(crate::json::is_first_key(rv, id@, i as int));
                assert(forall|j: int| crate::json::is_first_key(rv, id@, j) ==> j == i);
                return Some(i);
            }
            i = i + 1;
        }
        assert(forall|j: int| !crate::json::is_first_key(rv, id@, j));
        None
    }

    /// Stores `data` as the current value of resource `id`, stamped with
    /// `updated_at`, replacing any earlier value.
    pub fn store_resource(&mut self, id: &str, resource_type: &str, data: &Json, updated_at: &str)
        requires
            old(self).wf(),
        ensures
            final(self).wf(),
            final(self).resources() == put_sorted(
                old(self).resources(),
                id@,
                ResourceV { resource_type: resource_type@, data: data@ },
            ),
            final(self).log() == old(self).log(),
            final(self).sequences() == old(self).sequences(),
            final(self).last_sequence() == old(self).last_sequence(),
            final(self).logins() == old(self).logins(),
    {
        let ghost before = self.resources();
        let ghost v = ResourceV { resource_type: resource_type@, data: data@ };
        let rec = ResourceRecord {
            id: id.to_string(),
            resource_type: resource_type.to_string(),
            data: data.deep_copy(),
            updated_at: updated_at.to_string(),
        };
        let n = self.resources.len();
        let mut i: usize = 0;
        while i < n && str_lt(self.resources[i].id.as_str(), id)
            invariant
                n == self.resources.len(),
                before == self.resources(),
                i <= n,
                forall|j: int| 0 <= j < i ==> seq_lt(before[j].0, id@),
            decreases n - i,
        {
            assert(before[i as int].0 == self.resources[i as int].id@);
            i = i + 1;
        }
        proof {
            lemma_wf_sorted(self);
        }
        if i < n && str_eq(self.resources[i].id.as_str(), id) {
            proof {
                assert(before[i as int].0 == id@);
                assert forall|j: int| 0 <= j < i implies before[j].0 != id@ by {
                    crate::text::lemma_lt_irreflexive(id@);
                }
                assert(crate::json::is_first_key(before, id@, i as int));
                lemma_key_index_found(before, id@);
            }
            self.resources.set(i, rec);
            assert(self.resources() =~= put_sorted(before, id@, v));
        } else {
            proof {
                if i < n {
                    assert(before[i as int].0 == self.resources[i as int].id@);
                    assert(!seq_lt(before[i as int].0, id@));
                }
                assert forall|j: int| i <= j < before.len() implies !seq_lt(#[trigger] before[j].0, id@) by {
                    if j > i && seq_lt(before[j].0, id@) {
                        crate::text::lemma_lt_transitive(before[i as int].0, before[j].0, id@);
                    }
                }
                assert(is_slot(before, id@, i as int));
                lemma_slot_unique(before, id@, i as int);
                assert(!has_key(before, id@)) by {
                    if has_key(before, id@) {
                        let w = choose|w: int| 0 <= w < before.len() && before[w].0 == id@;
                        crate::text::lemma_lt_irreflexive(id@);
                        if w > i {
                            assert(seq_lt(before[i as int].0, before[w].0));
                        }
                    }
                }
                lemma_key_index_absent(before, id@);
            }
            self.resources.insert(i, rec);
            assert(self.resources() =~= put_sorted(before, id@, v));
        }
        proof {
            lemma_put_sorted_sorted(before, id@, v);
        }
    }

    /// The current value of resource `id`.
    pub fn get_resource(&self, id: &str) -> (r: Option<Json>)
        ensures
            r matches Some(d) ==> lookup(self.resources(), id@) matches Some(v) && v.data == d@,
            r is None ==> lookup(self.resources(), id@) is None,
    {
        match self.find_resource(id) {
            Some(i) => {
                assert(self.resources()[i as int].1.data == self.resources[i as int].data@);
                Some(self.resources[i].data.deep_copy())
            },
            None => None,
        }
    }

    /// The type under which resource `id` is stored.
    pub fn get_resource_type(&self, id: &str) -> (r: Option<String>)
        ensures
            r matches Some(t) ==> lookup(self.resources(), id@) matches Some(v) && v.resource_type == t@,
            r is None ==> lookup(self.resources(), id@) is None,
    {
        match self.find_resource(id) {
            Some(i) => {
                assert(self.resources()[i as int].1.resource_type == self.resources[i as int].resource_type@);
                Some(self.resources[i].resource_type.clone())
            },
            None => None,
        }
    }

    /// How many events the log holds.
    pub fn event_count(&self) -> (r: usize)
        ensures
            r == self.log().len(),
    {
        self.events.len()
    }

    /// The event at position `i` of the log.
    pub fn event_at(&self, i: usize) -> (r: CloudEvent)
        requires
            i < self.log().len(),
        ensures
            r@ == self.log()[i as int],
    {
        Self::record_to_event(&self.events[i])
    }

    /// Drops every resource, keeping the log and the pending logins.
    pub fn clear_resources(&mut self)
        requires
            old(self).wf(),
        ensures
            final(self).wf(),
            final(self).resources().len() == 0,
            final(self).log() == old(self).log(),
            final(self).sequences() == old(self).sequences(),
            final(self).last_sequence() == old(self).last_sequence(),
            final(self).logins() == old(self).logins(),
    {
        self.resources = Vec::new();
        assert(self.resources() =~= Seq::<(Seq<char>, ResourceV)>::empty());
        assert(sorted_keys(self.resources()));
    }

    /// How many resources are stored.
    pub fn resource_count(&self) -> (r: usize)
        ensures
            r == self.resources().len(),
    {
        self.resources.len()
    }

    /// The id and value of the resource at position `i`.
    pub fn resource_at(&self, i: usize) -> (r: (String, String, Json))
        requires
            i < self.resources().len(),
        ensures
            r.0@ == self.resources()[i as int].0,
            r.1@ == self.resources()[i as int].1.resource_type,
            r.2@ == self.resources()[i as int].1.data,
    {
        (self.resources[i].id.clone(), self.resources[i].resource_type.clone(), self.resources[i].data.deep_copy())
    }

    /// Removes resource `id`, if it is there.
    pub fn delete_resource(&mut self, id: &str)
        requires
            old(self).wf(),
        ensures
            final(self).wf(),
            final(self).resources() == remove_key(old(self).resources(), id@),
            final(self).log() == old(self).log(),
            final(self).sequences() == old(self).sequences(),
            final(self).last_sequence() == old(self).last_sequence(),
            final(self).logins() == old(self).logins(),
    {
        let ghost before = self.resources();
        match self.find_resource(id) {
            Some(i) => {
                self.resources.remove(i);
            },
            None => {},
        }
        assert(self.resources() =~= remove_key(before, id@));
        proof {
            lemma_remove_key_sorted(before, id@);
        }
    }

    /// How many resources a page starting at `offset` of at most `limit`
    /// holds.
    pub open spec fn list_resources_len(&self, offset: usize, limit: usize) -> int {
        if offset >= self.resources().len() {
            0
        } else {
            take(self.resources().subrange(offset as int, self.resources().len() as int), limit as int).len() as int
        }
    }

    /// The resources in ascending id order from position `offset` on, at most
    /// `limit` of them, as id and value.
    pub fn list_resources(&self, offset: usize, limit: usize) -> (r: Vec<(String, Json)>)
        requires
            self.wf(),
        ensures
            forall|i: int, j: int| 0 <= i < j < r.len() ==> seq_lt(r[i].0@, r[j].0@),
            r.len() == self.list_resources_len(offset, limit),
            forall|i: int|
                0 <= i < r.len() ==> r[i].0@ == self.resources()[offset + i].0 && r[i].1@ == self.resources()[offset
                    + i].1.data,
    {
        proof {
            lemma_wf_sorted(self);
        }
        let mut out: Vec<(String, Json)> = Vec::new();
        let mut i: usize = offset;
        while i < self.resources.len() && out.len() < limit
            invariant
                offset <= i <= self.resources.len() || (i == offset && offset >= self.resources.len()),
                out.len() == i - offset,
                out.len() <= limit,
                forall|k: int|
                    0 <= k < out.len() ==> out[k].0@ == self.resources()[offset + k].0 && out[k].1@
                        == self.resources()[offset + k].1.data,
            decreases self.resources.len() - i,
        {
            let rec = &self.resources[i];
            out.push((rec.id.clone(), rec.data.deep_copy()));
            i = i + 1;
        }
        out
    }

    /// Empties the log, the resources and the pending logins, and restarts
    /// sequence numbering.
    pub fn clear(&mut self)
        ensures
            final(self).wf(),
            final(self).log().len() == 0,
            final(self).last_sequence() == 0,
            final(self).resources().len() == 0,
            final(self).logins().len() == 0,
    {
        *self = Storage::new();
    }

    fn find_login(&self, token: &str) -> (r: Option<usize>)
        ensures
            match r {
                Some(i) => key_index(self.logins(), token@) == i && i < self.pending_logins.len(),
                None => key_index(self.logins(), token@) == -1,
            },
            r is Some <==> has_key(self.logins(), token@),
    {
        let ghost lv = self.logins();
        let mut i: usize = 0;
        while i < self.pending_logins.len()
            invariant
                i <= self.pending_logins.len(),
                lv == self.logins(),
                forall|j: int| 0 <= j < i ==> lv[j].0 != token@,
            decreases self.pending_logins.len() - i,
        {
            if str_eq(self.pending_logins[i].0.as_str(), token) {
                assert(crate::json::is_first_key(lv, token@, i as int));
                assert(forall|j: int| crate::json::is_first_key(lv, token@, j) ==> j == i);
                return Some(i);
            }
            i = i + 1;
        }
        assert(forall|j: int| !crate::json::is_first_key(lv, token@, j));
        None
    }

    /// Records a login token for `email` that expires at `expires_at`.
    pub fn store_pending_login(&mut self, token: &str, email: &str, expires_at: i64)
        requires
            old(self).wf(),
        ensures
            final(self).wf(),
            final(self).logins() == put_key(old(self).logins(), token@, (email@, expires_at)),
            final(self).log() == old(self).log(),
            final(self).sequences() == old(self).sequences(),
            final(self).last_sequence() == old(self).last_sequence(),
            final(self).resources() == old(self).resources(),
    {
        let ghost before = self.logins();
        let rec = PendingLoginRecord { email: email.to_string(), expires_at };
        match self.find_login(token) {
            Some(i) => {
                self.pending_logins.set(i, (token.to_string(), rec));
            },
            None => {
                self.pending_logins.push((token.to_string(), rec));
            },
        }
        assert(self.logins() =~= put_key(before, token@, (email@, expires_at)));
        proof {
            lemma_put_key_distinct(before, token@, (email@, expires_at));
        }
    }

    /// Takes out the pending login for `token`: a token can be used once.
    pub fn get_and_remove_pending_login(&mut self, token: &str) -> (r: Option<PendingLoginRecord>)
        requires
            old(self).wf(),
        ensures
            final(self).wf(),
            final(self).logins() == remove_key(old(self).logins(), token@),
            r is Some <==> has_key(old(self).logins(), token@),
            r matches Some(rec) ==> get_key(old(self).logins(), token@) == (rec.email@, rec.expires_at),
            final(self).log() == old(self).log(),
            final(self).sequences() == old(self).sequences(),
            final(self).last_sequence() == old(self).last_sequence(),
            final(self).resources() == old(self).resources(),
    {
        let ghost before = self.logins();
        let r = match self.find_login(token) {
            Some(i) => {
                let (_t, rec) = self.pending_logins.remove(i);
                Some(rec)
            },
            None => None,
        };
        assert(self.logins() =~= remove_key(before, token@));
        proof {
            lemma_remove_key_distinct(before, token@);
        }
        r
    }
}

/// Setting a key keeps the keys distinct.
pub proof fn lemma_put_key_distinct<V>(ms: Seq<(Seq<char>, V)>, k: Seq<char>, v: V)
    requires
        distinct_keys(ms),
    ensures
        distinct_keys(put_key(ms, k, v)),
        has_key(put_key(ms, k, v), k),
        get_key(put_key(ms, k, v), k) == v,
        forall|k2: Seq<char>| k2 != k ==> has_key(put_key(ms, k, v), k2) == has_key(ms, k2),
        forall|k2: Seq<char>|
            k2 != k && has_key(ms, k2) ==> get_key(put_key(ms, k, v), k2) == get_key(ms, k2),
{
    let out = put_key(ms, k, v);
    if has_key(ms, k) {
        lemma_key_index_found(ms, k);
    } else {
        lemma_key_index_absent(ms, k);
    }
    let idx = key_index(ms, k);
    assert(has_key(out, k)) by {
        if idx >= 0 {
            assert(out[idx].0 == k);
        } else {
            assert(out[ms.len() as int].0 == k);
        }
    }
    lemma_key_index_found(out, k);
    assert forall|k2: Seq<char>| k2 != k implies has_key(out, k2) == has_key(ms, k2) by {
        if has_key(ms, k2) {
            let w = choose|i: int| 0 <= i < ms.len() && ms[i].0 == k2;
            assert(out[w].0 == k2);
        }
        if has_key(out, k2) {
            let w = choose|i: int| 0 <= i < out.len() && out[i].0 == k2;
            assert(ms[w].0 == k2);
        }
    }
    assert forall|k2: Seq<char>| k2 != k && has_key(ms, k2) implies get_key(out, k2) == get_key(ms, k2) by {
        lemma_key_index_found(ms, k2);
        lemma_key_index_found(out, k2);
        let a = key_index(ms, k2);
        let b = key_index(out, k2);
        assert(out[a].0 == k2);
        assert(ms[b].0 == k2);
    }
}

/// Removing a key keeps the keys distinct, and the key is gone afterwards.
pub proof fn lemma_remove_key_distinct<V>(ms: Seq<(Seq<char>, V)>, k: Seq<char>)
    requires
        distinct_keys(ms),
    ensures
        distinct_keys(remove_key(ms, k)),
        !has_key(remove_key(ms, k), k),
        forall|k2: Seq<char>| k2 != k ==> has_key(remove_key(ms, k), k2) == has_key(ms, k2),
        forall|k2: Seq<char>|
            k2 != k && has_key(ms, k2) ==> get_key(remove_key(ms, k), k2) == get_key(ms, k2),
{
    let out = remove_key(ms, k);
    if has_key(ms, k) {
        lemma_key_index_found(ms, k);
        let idx = key_index(ms, k);
        assert forall|i: int| 0 <= i < out.len() implies out[i] == (if i < idx { ms[i] } else { ms[i + 1] }) by {}
        assert(!has_key(out, k));
        assert forall|k2: Seq<char>| k2 != k implies has_key(out, k2) == has_key(ms, k2) by {
            if has_key(ms, k2) {
                let w = choose|i: int| 0 <= i < ms.len() && ms[i].0 == k2;
                if w < idx {
                    assert(out[w].0 == k2);
                } else {
                    assert(out[w - 1].0 == k2);
                }
            }
            if has_key(out, k2) {
                let w = choose|i: int| 0 <= i < out.len() && out[i].0 == k2;
                if w < idx {
                    assert(ms[w].0 == k2);
                } else {
                    assert(ms[w + 1].0 == k2);
                }
            }
        }
        assert forall|k2: Seq<char>| k2 != k && has_key(ms, k2) implies get_key(out, k2) == get_key(ms, k2) by {
            lemma_key_index_found(ms, k2);
            lemma_key_index_found(out, k2);
            let a = key_index(ms, k2);
            let b = key_index(out, k2);
            if a < idx {
                assert(out[a].0 == k2);
            } else {
                assert(out[a - 1].0 == k2);
            }
            if b < idx {
                assert(ms[b].0 == k2);
            } else {
                assert(ms[b + 1].0 == k2);
            }
        }
    } else {
        lemma_key_index_absent(ms, k);
    }
}

} // verus!

verus! {

/// The keys of `evs` strictly increase, as text.
pub open spec fn keys_increasing(evs: Seq<CloudEventV>) -> bool {
    forall|i: int, j: int| 0 <= i < j < evs.len() ==> seq_lt(event_key(evs[i]), event_key(evs[j]))
}

/// Sequence monotonicity: the log's sequence numbers strictly increase in
/// append order, and so do its keys when compared as text.
pub proof fn lemma_log_ordered(s: &Storage)
    requires
        s.wf(),
    ensures
        forall|i: int, j: int| 0 <= i < j < s.sequences().len() ==> s.sequences()[i] < s.sequences()[j],
        keys_increasing(s.log()),
{
    s.lemma_wf();
    assert forall|i: int, j: int| 0 <= i < j < s.log().len() implies seq_lt(event_key(s.log()[i]), event_key(s.log()[j])) by {
        crate::text::lemma_sequence_key_order(s.sequences()[i], s.sequences()[j]);
    }
}

proof fn lemma_events_after_members(evs: Seq<CloudEventV>, after: Option<Seq<char>>)
    ensures
        events_after(evs, after).len() <= evs.len(),
        forall|x: int| 0 <= x < events_after(evs, after).len() ==> exists|k: int|
            0 <= k < evs.len() && #[trigger] events_after(evs, after)[x] == evs[k],
    decreases evs.len(),
{
    if evs.len() > 0 {
        let d = evs.drop_last();
        lemma_events_after_members(d, after);
        assert forall|x: int| 0 <= x < events_after(evs, after).len() implies exists|k: int|
            0 <= k < evs.len() && #[trigger] events_after(evs, after)[x] == evs[k] by {
            if x < events_after(d, after).len() {
                let k = choose|k: int| 0 <= k < d.len() && #[trigger] events_after(d, after)[x] == d[k];
                assert(evs[k] == d[k]);
            } else {
                assert(events_after(evs, after)[x] == evs[evs.len() - 1]);
            }
        }
    }
}

/// A listing after any cursor keeps the log's order: its keys strictly
/// increase too.
pub proof fn lemma_listing_ordered(evs: Seq<CloudEventV>, after: Option<Seq<char>>, limit: int)
    requires
        keys_increasing(evs),
        limit >= 0,
    ensures
        keys_increasing(events_after(evs, after)),
        keys_increasing(take(events_after(evs, after), limit)),
    decreases evs.len(),
{
    if evs.len() > 0 {
        let d = evs.drop_last();
        assert(keys_increasing(d));
        lemma_listing_ordered(d, after, limit);
        lemma_events_after_members(d, after);
        let rest = events_after(d, after);
        if is_after(evs.last(), after) {
            let full = rest.push(evs.last());
            assert forall|i: int, j: int| 0 <= i < j < full.len() implies seq_lt(event_key(full[i]), event_key(full[j])) by {
                if j == full.len() - 1 {
                    let k = choose|k: int| 0 <= k < d.len() && #[trigger] rest[i] == d[k];
                    assert(evs[k] == rest[i]);
                    assert(evs[evs.len() - 1] == full[j]);
                } else {
                    assert(full[i] == rest[i]);
                    assert(full[j] == rest[j]);
                }
            }
        }
    }
    let l = events_after(evs, after);
    if l.len() > limit {
        assert forall|i: int, j: int| 0 <= i < j < take(l, limit).len() implies seq_lt(
            event_key(take(l, limit)[i]),
            event_key(take(l, limit)[j]),
        ) by {
            assert(take(l, limit)[i] == l[i]);
            assert(take(l, limit)[j] == l[j]);
        }
    }
}

} // verus!

verus! {

/// The keys strictly increase, as text.
pub open spec fn sorted_keys<V>(ms: Seq<(Seq<char>, V)>) -> bool {
    forall|i: int, j: int| 0 <= i < j < ms.len() ==> seq_lt(ms[i].0, ms[j].0)
}

/// Position `i` is where key `k` belongs: after every smaller key, before
/// every other.
pub open spec fn is_slot<V>(ms: Seq<(Seq<char>, V)>, k: Seq<char>, i: int) -> bool {
    &&& 0 <= i <= ms.len()
    &&& forall|j: int| 0 <= j < i ==> seq_lt(#[trigger] ms[j].0, k)
    &&& forall|j: int| i <= j < ms.len() ==> !seq_lt(#[trigger] ms[j].0, k)
}

/// Where key `k` belongs among the members.
pub open spec fn slot<V>(ms: Seq<(Seq<char>, V)>, k: Seq<char>) -> int {
    if exists|i: int| is_slot(ms, k, i) {
        choose|i: int| is_slot(ms, k, i)
    } else {
        ms.len() as int
    }
}

/// The members with `k` set to `v`, in a store ordered by key: replaced in
/// place, or inserted where the key belongs.
pub open spec fn put_sorted<V>(ms: Seq<(Seq<char>, V)>, k: Seq<char>, v: V) -> Seq<(Seq<char>, V)> {
    if key_index(ms, k) >= 0 {
        ms.update(key_index(ms, k), (k, v))
    } else {
        ms.insert(slot(ms, k), (k, v))
    }
}

proof fn lemma_slot_unique<V>(ms: Seq<(Seq<char>, V)>, k: Seq<char>, i: int)
    requires
        is_slot(ms, k, i),
    ensures
        slot(ms, k) == i,
{
    let c = choose|c: int| is_slot(ms, k, c);
    if c < i {
        assert(seq_lt(ms[c].0, k));
    } else if i < c {
        assert(seq_lt(ms[i].0, k));
    }
}

pub proof fn lemma_sorted_distinct<V>(ms: Seq<(Seq<char>, V)>)
    requires
        sorted_keys(ms),
    ensures
        distinct_keys(ms),
{
    assert forall|i: int, j: int| 0 <= i < ms.len() && 0 <= j < ms.len() && i != j implies ms[i].0 != ms[j].0 by {
        crate::text::lemma_lt_irreflexive(ms[i].0);
    }
}

proof fn lemma_slot_exists<V>(ms: Seq<(Seq<char>, V)>, k: Seq<char>)
    requires
        sorted_keys(ms),
    ensures
        exists|i: int| is_slot(ms, k, i),
    decreases ms.len(),
{
    if ms.len() == 0 {
        assert(is_slot(ms, k, 0));
    } else {
        let n = ms.len() - 1;
        if seq_lt(ms[n].0, k) {
            assert forall|j: int| 0 <= j < ms.len() implies seq_lt(#[trigger] ms[j].0, k) by {
                if j < n {
                    crate::text::lemma_lt_transitive(ms[j].0, ms[n].0, k);
                }
            }
            assert(is_slot(ms, k, ms.len() as int));
        } else {
            let d = ms.drop_last();
            lemma_slot_exists(d, k);
            let i = choose|i: int| is_slot(d, k, i);
            assert forall|j: int| i <= j < ms.len() implies !seq_lt(#[trigger] ms[j].0, k) by {
                if j < n {
                    assert(d[j] == ms[j]);
                }
            }
            assert forall|j: int| 0 <= j < i implies seq_lt(#[trigger] ms[j].0, k) by {
                assert(d[j] == ms[j]);
            }
            assert(is_slot(ms, k, i));
        }
    }
}

/// Setting a key in a store ordered by key keeps it ordered, and has the
/// effect of `put_key` on what each key holds.
pub proof fn lemma_put_sorted<V>(ms: Seq<(Seq<char>, V)>, k: Seq<char>, v: V)
    requires
        distinct_keys(ms),
    ensures
        distinct_keys(put_sorted(ms, k, v)),
        has_key(put_sorted(ms, k, v), k),
        get_key(put_sorted(ms, k, v), k) == v,
        forall|k2: Seq<char>| k2 != k ==> has_key(put_sorted(ms, k, v), k2) == has_key(ms, k2),
        forall|k2: Seq<char>|
            k2 != k && has_key(ms, k2) ==> get_key(put_sorted(ms, k, v), k2) == get_key(ms, k2),
{
    if has_key(ms, k) {
        lemma_key_index_found(ms, k);
        lemma_put_key_distinct(ms, k, v);
    } else {
        lemma_key_index_absent(ms, k);
        let p = slot(ms, k);
        assert(0 <= p <= ms.len()) by {
            if exists|i: int| is_slot(ms, k, i) {
                let c = choose|i: int| is_slot(ms, k, i);
            }
        }
        let out = ms.insert(p, (k, v));
        assert forall|i: int| 0 <= i < out.len() implies out[i] == (if i < p {
            ms[i]
        } else if i == p {
            (k, v)
        } else {
            ms[i - 1]
        }) by {}
        assert(distinct_keys(out)) by {
            assert forall|i: int, j: int| 0 <= i < out.len() && 0 <= j < out.len() && i != j implies out[i].0 != out[j].0 by {
                if i != p && j != p {
                    let a = if i < p { i } else { i - 1 };
                    let b = if j < p { j } else { j - 1 };
                    assert(out[i] == ms[a]);
                    assert(out[j] == ms[b]);
                } else if i == p {
                    let b = if j < p { j } else { j - 1 };
                    assert(out[j] == ms[b]);
                } else {
                    let a = if i < p { i } else { i - 1 };
                    assert(out[i] == ms[a]);
                }
            }
        }
        assert(has_key(out, k)) by {
            assert(out[p].0 == k);
        }
        lemma_key_index_found(out, k);
        assert forall|k2: Seq<char>| k2 != k implies has_key(out, k2) == has_key(ms, k2) by {
            if has_key(ms, k2) {
                let w = choose|i: int| 0 <= i < ms.len() && ms[i].0 == k2;
                if w < p {
                    assert(out[w].0 == k2);
                } else {
                    assert(out[w + 1].0 == k2);
                }
            }
            if has_key(out, k2) {
                let w = choose|i: int| 0 <= i < out.len() && out[i].0 == k2;
                if w < p {
                    assert(ms[w].0 == k2);
                } else {
                    assert(ms[w - 1].0 == k2);
                }
            }
        }
        assert forall|k2: Seq<char>| k2 != k && has_key(ms, k2) implies get_key(out, k2) == get_key(ms, k2) by {
            lemma_key_index_found(ms, k2);
            lemma_key_index_found(out, k2);
            let a = key_index(ms, k2);
            let b = key_index(out, k2);
            if a < p {
                assert(out[a].0 == k2);
            } else {
                assert(out[a + 1].0 == k2);
            }
            if b < p {
                assert(ms[b].0 == k2);
            } else {
                assert(ms[b - 1].0 == k2);
            }
        }
    }
}

proof fn lemma_put_sorted_sorted<V>(ms: Seq<(Seq<char>, V)>, k: Seq<char>, v: V)
    requires
        sorted_keys(ms),
    ensures
        sorted_keys(put_sorted(ms, k, v)),
{
    lemma_sorted_distinct(ms);
    if has_key(ms, k) {
        lemma_key_index_found(ms, k);
        let out = put_sorted(ms, k, v);
        assert forall|i: int, j: int| 0 <= i < j < out.len() implies seq_lt(out[i].0, out[j].0) by {
            assert(out[i].0 == ms[i].0);
            assert(out[j].0 == ms[j].0);
        }
    } else {
        lemma_key_index_absent(ms, k);
        lemma_slot_exists(ms, k);
        let p = slot(ms, k);
        assert(is_slot(ms, k, p));
        let out = ms.insert(p, (k, v));
        assert forall|i: int, j: int| 0 <= i < j < out.len() implies seq_lt(out[i].0, out[j].0) by {
            if j < p {
                assert(out[i] == ms[i] && out[j] == ms[j]);
            } else if j == p {
                assert(out[i] == ms[i]);
            } else if i < p {
                assert(out[i] == ms[i] && out[j] == ms[j - 1]);
            } else if i == p {
                assert(out[j] == ms[j - 1]);
                assert(!seq_lt(ms[j - 1].0, k));
                assert(ms[j - 1].0 != k);
                crate::text::lemma_lt_total(ms[j - 1].0, k);
            } else {
                assert(out[i] == ms[i - 1] && out[j] == ms[j - 1]);
            }
        }
    }
}

proof fn lemma_remove_key_sorted<V>(ms: Seq<(Seq<char>, V)>, k: Seq<char>)
    requires
        sorted_keys(ms),
    ensures
        sorted_keys(remove_key(ms, k)),
{
    if has_key(ms, k) {
        lemma_key_index_found(ms, k);
        let idx = key_index(ms, k);
        let out = ms.remove(idx);
        assert forall|i: int, j: int| 0 <= i < j < out.len() implies seq_lt(out[i].0, out[j].0) by {
            let a = if i < idx { i } else { i + 1 };
            let b = if j < idx { j } else { j + 1 };
            assert(out[i] == ms[a]);
            assert(out[j] == ms[b]);
        }
    } else {
        lemma_key_index_absent(ms, k);
    }
}

proof fn lemma_wf_sorted(s: &Storage)
    requires
        s.wf(),
    ensures
        sorted_keys(s.resources()),
        distinct_keys(s.resources()),
{
    s.lemma_wf();
}

} // verus!
