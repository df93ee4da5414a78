//! Who may see what: visibility derived from the `involved` list of a
//! resource, or of its parent, and the query clause that enforces it.
use vstd::prelude::*;
use crate::json::{field, find_key, lemma_object_view, members_of, members_view, put_key, Json, JsonV, put_member};
use crate::storage::{lookup, Storage};
use crate::text::str_eq;

verus! {

/// The resource's own `involved` member is an array that holds `p`.
pub open spec fn lists_principal(d: JsonV, p: Seq<char>) -> bool {
    match field(d, "involved"@) {
        Some(JsonV::Array(xs)) => exists|i: int| 0 <= i < xs.len() && xs[i] == JsonV::Str(p),
        _ => false,
    }
}

/// The resource a resource without its own `involved` list defers to.
pub open spec fn parent_ref(d: JsonV) -> Option<Seq<char>> {
    match field(d, "parent_id"@) {
        Some(JsonV::Str(s)) => Some(s),
        _ => match field(d, "quote_comment"@) {
            Some(JsonV::Str(s)) => Some(s),
            _ => None,
        },
    }
}

/// Principal `p` may see resource `id`: the resource lists `p` in its own
/// `involved` member, or it has none and its parent (followed at most `fuel`
/// times) lets `p` see it. Anything else is denied.
pub open spec fn authorized(store: Seq<(Seq<char>, crate::storage::ResourceV)>, p: Seq<char>, id: Seq<char>, fuel: nat) -> bool
    decreases fuel,
{
    match lookup(store, id) {
        None => false,
        Some(r) => if field(r.data, "involved"@) is Some {
            lists_principal(r.data, p)
        } else {
            match parent_ref(r.data) {
                Some(pid) => fuel > 0 && authorized(store, p, pid, (fuel - 1) as nat),
                None => false,
            }
        },
    }
}

/// Whether the value lists principal `p` in its own `involved` array.
pub fn involved_contains(d: &Json, p: &str) -> (r: bool)
    ensures
        r == lists_principal(d@, p@),
{
    match d.get("involved") {
        Some(Json::Array(xs)) => {
            let mut i: usize = 0;
            while i < xs.len()
                invariant
                    field(d@, "involved"@) == Some(Json::Array(*xs)@),
                    i <= xs.len(),
                    forall|k: int| 0 <= k < i ==> xs[k]@ != JsonV::Str(p@),
                decreases xs.len() - i,
            {
                assert(Json::Array(*xs)@->Array_0[i as int] == xs[i as int]@);
                match &xs[i] {
                    Json::Str(s) => {
                        if str_eq(s.as_str(), p) {
                            return true;
                        }
                    },
                    _ => {},
                }
                i = i + 1;
            }
            proof {
                let ys = Json::Array(*xs)@->Array_0;
                assert forall|k: int| 0 <= k < ys.len() implies ys[k] != JsonV::Str(p@) by {
                    assert(ys[k] == xs[k]@);
                }
            }
            false
        },
        _ => false,
    }
}

/// The parent reference of a resource that has no `involved` list of its own.
pub fn parent_of(d: &Json) -> (r: Option<&String>)
    ensures
        r matches Some(s) ==> parent_ref(d@) == Some(s@),
        r is None ==> parent_ref(d@) is None,
{
    match d.get("parent_id") {
        Some(Json::Str(s)) => Some(s),
        _ => match d.get("quote_comment") {
            Some(Json::Str(s)) => Some(s),
            _ => None,
        },
    }
}

/// Point check: may `principal` see resource `resource_id`? Denied when the
/// resource is missing, lists others only, or has no way to decide.
pub fn is_authorized(storage: &Storage, principal: &str, resource_id: &str) -> (r: bool)
    requires
        storage.wf(),
    ensures
        r == authorized(storage.resources(), principal@, resource_id@, storage.resources().len()),
{
    let n = storage.resource_count();
    authorized_within(storage, principal, resource_id, n)
}

fn authorized_within(storage: &Storage, principal: &str, resource_id: &str, fuel: usize) -> (r: bool)
    requires
        storage.wf(),
    ensures
        r == authorized(storage.resources(), principal@, resource_id@, fuel as nat),
    decreases fuel,
{
    match storage.get_resource(resource_id) {
        None => false,
        Some(d) => {
            if d.contains_key("involved") {
                involved_contains(&d, principal)
            } else {
                match parent_of(&d) {
                    Some(pid) => fuel > 0 && authorized_within(storage, principal, pid.as_str(), fuel - 1),
                    None => false,
                }
            }
        },
    }
}

/// The ids among the first `n` resources whose indexed payload lists `p` in
/// its `involved` array, in store order.
pub open spec fn topics_upto(store: Seq<(Seq<char>, crate::storage::ResourceV)>, n: int, p: Seq<char>) -> Seq<Seq<char>>
    decreases n,
{
    if n <= 0 {
        Seq::empty()
    } else {
        let rest = topics_upto(store, n - 1, p);
        let e = store[n - 1];
        if lists_principal(index_payload(store, e.1.resource_type, e.1.data), p) {
            rest.push(e.0)
        } else {
            rest
        }
    }
}

/// The resources `p` sees by the bulk check: those whose indexed payload
/// (their own `involved` list, or for a comment its parent's) lists `p`.
pub open spec fn topics(store: Seq<(Seq<char>, crate::storage::ResourceV)>, p: Seq<char>) -> Seq<Seq<char>> {
    topics_upto(store, store.len() as int, p)
}

pub open spec fn strings_view(v: Seq<String>) -> Seq<Seq<char>> {
    v.map_values(|s: String| s@)
}

/// Bulk check: every resource whose indexed payload lists `principal`.
pub fn authorized_topics(storage: &Storage, principal: &str) -> (r: Vec<String>)
    requires
        storage.wf(),
    ensures
        strings_view(r@) == topics(storage.resources(), principal@),
{
    let ghost store = storage.resources();
    let n = storage.resource_count();
    let mut out: Vec<String> = Vec::new();
    let mut i: usize = 0;
    assert(strings_view(out@) =~= Seq::<Seq<char>>::empty());
    while i < n
        invariant
            n == store.len(),
            store == storage.resources(),
            storage.wf(),
            i <= n,
            strings_view(out@) == topics_upto(store, i as int, principal@),
        decreases n - i,
    {
        let (id, rtype, data) = storage.resource_at(i);
        let payload = build_index_payload(storage, rtype.as_str(), &data);
        if involved_contains(&payload, principal) {
            out.push(id);
        }
        assert(strings_view(out@) =~= topics_upto(store, i + 1, principal@));
        i = i + 1;
    }
    out
}

/// What the search index holds for a resource: its value, and for a comment
/// without its own `involved` list the list of the resource it refers to,
/// so that a query can check visibility without a join.
pub open spec fn index_payload(store: Seq<(Seq<char>, crate::storage::ResourceV)>, resource_type: Seq<char>, d: JsonV) -> JsonV {
    if resource_type == "comment"@ && d is Object && field(d, "involved"@) is None {
        match parent_ref(d) {
            Some(pid) => match lookup(store, pid) {
                Some(parent) => match field(parent.data, "involved"@) {
                    Some(inv) => JsonV::Object(put_key(members_of(d), "involved"@, inv)),
                    None => d,
                },
                None => d,
            },
            None => d,
        }
    } else {
        d
    }
}

/// Builds the payload to index for resource value `data` of type
/// `resource_type`.
pub fn build_index_payload(storage: &Storage, resource_type: &str, data: &Json) -> (r: Json)
    requires
        storage.wf(),
    ensures
        r@ == index_payload(storage.resources(), resource_type@, data@),
{
    if !(str_eq(resource_type, "comment") && data.is_object() && !data.contains_key("involved")) {
        return data.deep_copy();
    }
    let pid = match parent_of(data) {
        Some(pid) => pid,
        None => {
            return data.deep_copy();
        },
    };
    let parent = match storage.get_resource(pid.as_str()) {
        Some(p) => p,
        None => {
            return data.deep_copy();
        },
    };
    let inv = match parent.get("involved") {
        Some(inv) => inv.deep_copy(),
        None => {
            return data.deep_copy();
        },
    };
    match data {
        Json::Object(ms) => {
            let mut out: Vec<(String, Json)> = Vec::new();
            let mut i: usize = 0;
            while i < ms.len()
                invariant
                    i <= ms.len(),
                    out.len() == i,
                    forall|k: int| 0 <= k < i ==> out[k].0@ == ms[k].0@ && out[k].1@ == ms[k].1@,
                decreases ms.len() - i,
            {
                out.push((ms[i].0.clone(), ms[i].1.deep_copy()));
                i = i + 1;
            }
            assert(members_view(out@) =~= members_view(ms@));
            proof {
                lemma_object_view(*ms);
            }
            put_member(&mut out, String::from_str("involved"), inv);
            proof {
                lemma_object_view(out);
            }
            Json::Object(out)
        },
        _ => data.deep_copy(),
    }
}

/// A character with the Unicode White_Space property.
pub open spec fn is_white_space(c: char) -> bool {
    ('\u{9}' <= c <= '\u{d}') || c == ' ' || c == '\u{85}' || c == '\u{a0}' || c == '\u{1680}' || ('\u{2000}' <= c
        <= '\u{200a}') || c == '\u{2028}' || c == '\u{2029}' || c == '\u{202f}' || c == '\u{205f}' || c == '\u{3000}'
}

pub open spec fn trim_start(s: Seq<char>) -> Seq<char>
    decreases s.len(),
{
    if s.len() > 0 && is_white_space(s[0]) {
        trim_start(s.drop_first())
    } else {
        s
    }
}

pub open spec fn trim_end(s: Seq<char>) -> Seq<char>
    decreases s.len(),
{
    if s.len() > 0 && is_white_space(s.last()) {
        trim_end(s.drop_last())
    } else {
        s
    }
}

/// The text with leading and trailing White_Space characters taken off.
pub open spec fn trimmed(s: Seq<char>) -> Seq<char> {
    trim_end(trim_start(s))
}

/// Relies on `str::trim`, documented to remove leading and trailing
/// characters with the Unicode White_Space property.
#[verifier::external_body]
fn trim_text(s: &str) -> (r: &str)
    ensures
        r@ == trimmed(s@),
{
    s.trim()
}

/// The clause that keeps only what `user` is involved in, directly or
/// through an embedded commit payload.
pub open spec fn user_clause(user: Seq<char>) -> Seq<char> {
    "(json_payload.involved:\""@ + user + "\" OR json_payload.data.resource_data.involved:\""@ + user + "\")"@
}

/// The query restricted to `user`, given the query's text without
/// surrounding white space: the clause alone for an empty query or `*`,
/// otherwise `(<query>) AND <clause>`.
pub open spec fn authorized_query(query: Seq<char>, trimmed_query: Seq<char>, user: Seq<char>) -> Seq<char> {
    if trimmed_query == Seq::<char>::empty() || trimmed_query == "*"@ {
        user_clause(user)
    } else {
        "("@ + query + ") AND "@ + user_clause(user)
    }
}

/// Restricts `query` to `user`; `trimmed_query` is `query` without the
/// white space around it.
pub fn restrict_query(query: &str, trimmed_query: &str, user: &str) -> (r: String)
    ensures
        r@ == authorized_query(query@, trimmed_query@, user@),
{
    let mut clause = String::from_str("(json_payload.involved:\"");
    clause.append(user);
    clause.append("\" OR json_payload.data.resource_data.involved:\"");
    clause.append(user);
    clause.append("\")");
    proof {
        reveal_strlit("");
    }
    let n = trimmed_query.unicode_len();
    assert(n == 0 <==> trimmed_query@ =~= Seq::<char>::empty());
    if n == 0 || str_eq(trimmed_query, "*") {
        return clause;
    }
    let mut r = String::from_str("(");
    r.append(query);
    r.append(") AND ");
    r.append(clause.as_str());
    assert(r@ =~= authorized_query(query@, trimmed_query@, user@));
    r
}

/// Injects the visibility clause for `user` into a search query.
pub fn apply_authorization_filter(query: &str, user: &str) -> (r: String)
    ensures
        r@ == authorized_query(query@, trimmed(query@), user@),
{
    let t = trim_text(query);
    restrict_query(query, t, user)
}

} // verus!
