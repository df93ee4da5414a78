//! A JSON value type whose contents Verus can read, and its mathematical model.
use vstd::prelude::*;
use crate::text::str_eq;

verus! {

/// A JSON value. Numbers keep their textual form; objects keep their members
/// in order.
#[derive(Debug)]
pub enum Json {
    Null,
    Bool(bool),
    Number(String),
    Str(String),
    Array(Vec<Json>),
    Object(Vec<(String, Json)>),
}

/// The model of a JSON value: strings become character sequences.
pub enum JsonV {
    Null,
    Bool(bool),
    Number(Seq<char>),
    Str(Seq<char>),
    Array(Seq<JsonV>),
    Object(Seq<(Seq<char>, JsonV)>),
}

pub open spec fn json_view(j: Json) -> JsonV
    decreases j,
{
    match j {
        Json::Null => JsonV::Null,
        Json::Bool(b) => JsonV::Bool(b),
        Json::Number(n) => JsonV::Number(n@),
        Json::Str(s) => JsonV::Str(s@),
        Json::Array(items) => JsonV::Array(
            Seq::new(items.len() as nat, |i: int| if 0 <= i < items.len() { json_view(items[i]) } else { JsonV::Null }),
        ),
        Json::Object(members) => JsonV::Object(
            Seq::new(
                members.len() as nat,
                |i: int| if 0 <= i < members.len() { (members[i].0@, json_view(members[i].1)) } else { (Seq::empty(), JsonV::Null) },
            ),
        ),
    }
}

impl View for Json {
    type V = JsonV;

    open spec fn view(&self) -> JsonV {
        json_view(*self)
    }
}

/// The members of an object, as key and model pairs.
pub type Members = Seq<(Seq<char>, JsonV)>;

/// The model of a vector of members.
pub open spec fn members_view(ms: Seq<(String, Json)>) -> Members {
    Seq::new(ms.len(), |i: int| (ms[i].0@, ms[i].1@))
}

/// `i` is the first position holding key `k`.
pub open spec fn is_first_key<V>(ms: Seq<(Seq<char>, V)>, k: Seq<char>, i: int) -> bool {
    &&& 0 <= i < ms.len()
    &&& ms[i].0 == k
    &&& forall|j: int| 0 <= j < i ==> ms[j].0 != k
}

/// Position of the first member with key `k`, or -1 when there is none.
pub open spec fn key_index<V>(ms: Seq<(Seq<char>, V)>, k: Seq<char>) -> int {
    if exists|i: int| is_first_key(ms, k, i) {
        choose|i: int| is_first_key(ms, k, i)
    } else {
        -1
    }
}

pub open spec fn has_key<V>(ms: Seq<(Seq<char>, V)>, k: Seq<char>) -> bool {
    exists|i: int| 0 <= i < ms.len() && ms[i].0 == k
}

/// The value stored under `k` (the first one, if the key repeats).
pub open spec fn get_key<V>(ms: Seq<(Seq<char>, V)>, k: Seq<char>) -> V {
    ms[key_index(ms, k)].1
}

/// The members with the entry for `k` taken out.
pub open spec fn remove_key<V>(ms: Seq<(Seq<char>, V)>, k: Seq<char>) -> Seq<(Seq<char>, V)> {
    if key_index(ms, k) >= 0 {
        ms.remove(key_index(ms, k))
    } else {
        ms
    }
}

/// The members with `k` set to `v`: replaced in place, or added at the end.
pub open spec fn put_key<V>(ms: Seq<(Seq<char>, V)>, k: Seq<char>, v: V) -> Seq<(Seq<char>, V)> {
    if key_index(ms, k) >= 0 {
        ms.update(key_index(ms, k), (k, v))
    } else {
        ms.push((k, v))
    }
}

/// No key occurs twice among the members.
pub open spec fn distinct_keys<V>(ms: Seq<(Seq<char>, V)>) -> bool {
    forall|i: int, j: int| 0 <= i < ms.len() && 0 <= j < ms.len() && i != j ==> ms[i].0 != ms[j].0
}

pub open spec fn members_of(v: JsonV) -> Members {
    match v {
        JsonV::Object(ms) => ms,
        _ => Seq::empty(),
    }
}

pub open spec fn patch_len(p: JsonV) -> nat {
    match p {
        JsonV::Object(ms) => ms.len(),
        _ => 0,
    }
}

/// JSON Merge Patch (RFC 7396): the first `n` members of object patch `p`
/// applied to `t`, with `t` taken as `{}` when it is not an object. A `null`
/// member removes its key; an object member is merged onto the current value
/// of its key (onto `{}` when the key is absent); any other member is stored
/// as it is.
pub open spec fn merge_prefix(t: JsonV, p: JsonV, n: nat) -> JsonV
    decreases p, n,
{
    match p {
        JsonV::Object(pm) => {
            if n == 0 || n > pm.len() {
                JsonV::Object(members_of(t))
            } else {
                let acc = members_of(merge_prefix(t, p, (n - 1) as nat));
                let k = pm[n - 1].0;
                let v = pm[n - 1].1;
                match v {
                    JsonV::Null => JsonV::Object(remove_key(acc, k)),
                    JsonV::Object(_) => {
                        let base = if key_index(acc, k) >= 0 {
                            get_key(acc, k)
                        } else {
                            JsonV::Object(Seq::empty())
                        };
                        JsonV::Object(put_key(acc, k, merge_prefix(base, v, patch_len(v))))
                    },
                    _ => JsonV::Object(put_key(acc, k, v)),
                }
            }
        },
        _ => p,
    }
}

/// The result of merge-patching `t` with `p`: a patch that is not an object
/// replaces the target.
pub open spec fn merge_patch(t: JsonV, p: JsonV) -> JsonV {
    merge_prefix(t, p, patch_len(p))
}

/// The model of an object is the model of its members.
pub proof fn lemma_object_view(ms: Vec<(String, Json)>)
    ensures
        Json::Object(ms)@ == JsonV::Object(members_view(ms@)),
{
    assert(json_view(Json::Object(ms))->Object_0 =~= members_view(ms@));
}

/// Position of the first member with key `key`.
pub fn find_key(ms: &Vec<(String, Json)>, key: &str) -> (r: Option<usize>)
    ensures
        match r {
            Some(i) => key_index(members_view(ms@), key@) == i,
            None => key_index(members_view(ms@), key@) == -1,
        },
        r is Some <==> has_key(members_view(ms@), key@),
{
    let ghost mv = members_view(ms@);
    let mut i: usize = 0;
    while i < ms.len()
        invariant
            i <= ms.len(),
            mv == members_view(ms@),
            forall|j: int| 0 <= j < i ==> mv[j].0 != key@,
        decreases ms.len() - i,
    {
        if str_eq(ms[i].0.as_str(), key) {
            assert(is_first_key(mv, key@, i as int));
            assert(forall|j: int| is_first_key(mv, key@, j) ==> j == i);
            return Some(i);
        }
        i = i + 1;
    }
    assert(forall|j: int| !is_first_key(mv, key@, j));
    None
}

/// Sets member `key` to `v`, in place when the key is there.
pub fn put_member(ms: &mut Vec<(String, Json)>, key: String, v: Json)
    ensures
        members_view(final(ms)@) == put_key(members_view(old(ms)@), key@, v@),
{
    let ghost mv = members_view(ms@);
    let ghost kv = key@;
    let ghost vv = v@;
    match find_key(ms, key.as_str()) {
        Some(i) => {
            ms.set(i, (key, v));
            assert(members_view(ms@) =~= put_key(mv, kv, vv));
        },
        None => {
            ms.push((key, v));
            assert(members_view(ms@) =~= put_key(mv, kv, vv));
        },
    }
}

/// Removes member `key`, if it is there.
pub fn remove_member(ms: &mut Vec<(String, Json)>, key: &str)
    ensures
        members_view(final(ms)@) == remove_key(members_view(old(ms)@), key@),
{
    let ghost mv = members_view(ms@);
    match find_key(ms, key) {
        Some(i) => {
            ms.remove(i);
            assert(members_view(ms@) =~= remove_key(mv, key@));
        },
        None => {},
    }
}

/// The member `k` of `v`, when `v` is an object that has it.
pub open spec fn field(v: JsonV, k: Seq<char>) -> Option<JsonV> {
    if v is Object && has_key(members_of(v), k) {
        Some(get_key(members_of(v), k))
    } else {
        None
    }
}

impl Json {
    /// The member `key` of this value, when it is an object that has one.
    pub fn get(&self, key: &str) -> (r: Option<&Json>)
        ensures
            r matches Some(v) ==> field(self@, key@) == Some(v@),
            r is None ==> field(self@, key@) is None,
    {
        match self {
            Json::Object(ms) => {
                proof {
                    lemma_object_view(*ms);
                }
                match find_key(ms, key) {
                    Some(i) => {
                        assert(members_view(ms@)[i as int].1 == ms[i as int].1@);
                        Some(&ms[i].1)
                    },
                    None => None,
                }
            },
            _ => None,
        }
    }

    pub fn contains_key(&self, key: &str) -> (r: bool)
        ensures
            r == (field(self@, key@) is Some),
    {
        self.get(key).is_some()
    }

    /// The empty object `{}`.
    pub fn empty_object() -> (r: Json)
        ensures
            r@ == JsonV::Object(Seq::empty()),
    {
        let r = Json::Object(Vec::new());
        proof {
            assert(json_view(r)->Object_0 =~= Seq::<(Seq<char>, JsonV)>::empty());
        }
        r
    }

    pub fn is_null(&self) -> (r: bool)
        ensures
            r == (self@ is Null),
    {
        match self {
            Json::Null => true,
            _ => false,
        }
    }

    pub fn is_object(&self) -> (r: bool)
        ensures
            r == (self@ is Object),
    {
        match self {
            Json::Object(_) => true,
            _ => false,
        }
    }

    /// A copy of this value with the same contents.
    pub fn deep_copy(&self) -> (r: Json)
        ensures
            r@ == self@,
        decreases self,
    {
        match self {
            Json::Null => Json::Null,
            Json::Bool(b) => Json::Bool(*b),
            Json::Number(n) => Json::Number(n.clone()),
            Json::Str(s) => Json::Str(s.clone()),
            Json::Array(items) => {
                let mut out: Vec<Json> = Vec::new();
                let mut i: usize = 0;
                while i < items.len()
                    invariant
                        i <= items.len(),
                        *self == Json::Array(*items),
                        out.len() == i,
                        forall|k: int| 0 <= k < i ==> out[k]@ == items[k]@,
                    decreases items.len() - i,
                {
                    proof {
                        vstd::std_specs::vec::axiom_vec_index_decreases(*items, i as int);
                        assert(decreases_to!(*self => (*self)->Array_0));
                        assert(decreases_to!(*self => items[i as int]));
                    }
                    let c = items[i].deep_copy();
                    out.push(c);
                    i = i + 1;
                }
                let r = Json::Array(out);
                assert(r@ == self@) by {
                    assert(json_view(r)->Array_0 =~= json_view(*self)->Array_0);
                }
                r
            },
            Json::Object(members) => {
                let mut out: Vec<(String, Json)> = Vec::new();
                let mut i: usize = 0;
                while i < members.len()
                    invariant
                        i <= members.len(),
                        *self == Json::Object(*members),
                        out.len() == i,
                        forall|k: int| 0 <= k < i ==> out[k].0@ == members[k].0@ && out[k].1@ == members[k].1@,
                    decreases members.len() - i,
                {
                    let key = members[i].0.clone();
                    proof {
                        vstd::std_specs::vec::axiom_vec_index_decreases(*members, i as int);
                        assert(decreases_to!(*self => (*self)->Object_0));
                        assert(decreases_to!(members[i as int] => members[i as int].1));
                        assert(decreases_to!(*self => members[i as int].1));
                    }
                    let c = members[i].1.deep_copy();
                    out.push((key, c));
                    i = i + 1;
                }
                let r = Json::Object(out);
                assert(r@ == self@) by {
                    assert(json_view(r)->Object_0 =~= json_view(*self)->Object_0);
                }
                r
            },
        }
    }
}

/// Merge-patches `target` with `patch`, by value.
pub fn merged(target: Json, patch: &Json) -> (r: Json)
    ensures
        r@ == merge_patch(target@, patch@),
    decreases patch,
{
    match patch {
        Json::Object(pm) => {
            let mut ms: Vec<(String, Json)> = match target {
                Json::Object(m) => m,
                _ => Vec::new(),
            };
            proof {
                lemma_object_view(*pm);
                assert(members_view(ms@) =~= members_of(target@));
            }
            let mut i: usize = 0;
            while i < pm.len()
                invariant
                    *patch == Json::Object(*pm),
                    patch@ == JsonV::Object(members_view(pm@)),
                    i <= pm.len(),
                    JsonV::Object(members_view(ms@)) == merge_prefix(target@, patch@, i as nat),
                decreases pm.len() - i,
            {
                let ghost acc = members_view(ms@);
                let k = &pm[i].0;
                let v = &pm[i].1;
                assert(members_view(pm@)[i as int] == (k@, v@));
                match v {
                    Json::Null => {
                        remove_member(&mut ms, k.as_str());
                    },
                    Json::Object(_) => {
                        match find_key(&ms, k.as_str()) {
                            Some(j) => {
                                let (k0, cur) = ms.remove(j);
                                assert(acc[j as int] == (k0@, cur@));
                                proof {
                                    vstd::std_specs::vec::axiom_vec_index_decreases(*pm, i as int);
                                    assert(decreases_to!(*patch => (*patch)->Object_0));
                                    assert(decreases_to!(pm[i as int] => pm[i as int].1));
                                    assert(decreases_to!(*patch => pm[i as int].1));
                                }
                                let nv = merged(cur, v);
                                ms.insert(j, (k0, nv));
                                assert(members_view(ms@) =~= put_key(acc, k@, merge_prefix(get_key(acc, k@), v@, patch_len(v@))));
                                assert(key_index(acc, k@) >= 0);
                            },
                            None => {
                                proof {
                                    vstd::std_specs::vec::axiom_vec_index_decreases(*pm, i as int);
                                    assert(decreases_to!(*patch => (*patch)->Object_0));
                                    assert(decreases_to!(pm[i as int] => pm[i as int].1));
                                    assert(decreases_to!(*patch => pm[i as int].1));
                                }
                                let nv = merged(Json::empty_object(), v);
                                put_member(&mut ms, k.clone(), nv);
                            },
                        }
                    },
                    _ => {
                        put_member(&mut ms, k.clone(), v.clone());
                    },
                }
                i = i + 1;
            }
            proof {
                lemma_object_view(ms);
            }
            Json::Object(ms)
        },
        _ => patch.clone(),
    }
}

/// Merge-patches `target` with `patch` in place (RFC 7396): a `null` member
/// removes its key, an object member merges recursively, any other member
/// overwrites, and a patch that is not an object replaces the whole target.
pub fn apply_json_merge_patch(target: &mut Json, patch: &Json)
    ensures
        final(target)@ == merge_patch(old(target)@, patch@),
{
    let mut t = Json::Null;
    core::mem::swap(&mut t, target);
    *target = merged(t, patch);
}

/// Merge-patches `target` with `patch` in place, by RFC 7396; the same
/// operation as `apply_json_merge_patch`.
pub fn apply_merge_patch(target: &mut Json, patch: &Json)
    ensures
        final(target)@ == merge_patch(old(target)@, patch@),
{
    apply_json_merge_patch(target, patch);
}

impl Clone for Json {
    fn clone(&self) -> (r: Json)
        ensures
            r@ == self@,
    {
        self.deep_copy()
    }
}

} // verus!

verus! {

/// A key that occurs has a first position, and `key_index` finds it.
pub proof fn lemma_key_index_found<V>(ms: Seq<(Seq<char>, V)>, k: Seq<char>)
    requires
        has_key(ms, k),
    ensures
        is_first_key(ms, k, key_index(ms, k)),
{
    let w = choose|i: int| 0 <= i < ms.len() && ms[i].0 == k;
    assert(exists|i: int| is_first_key(ms, k, i)) by {
        lemma_least_key(ms, k, w);
    }
}

proof fn lemma_least_key<V>(ms: Seq<(Seq<char>, V)>, k: Seq<char>, w: int)
    requires
        0 <= w < ms.len(),
        ms[w].0 == k,
    ensures
        exists|i: int| is_first_key(ms, k, i),
    decreases w,
{
    if exists|j: int| 0 <= j < w && ms[j].0 == k {
        let j = choose|j: int| 0 <= j < w && ms[j].0 == k;
        lemma_least_key(ms, k, j);
    } else {
        assert(is_first_key(ms, k, w));
    }
}

/// A key that does not occur has position -1.
pub proof fn lemma_key_index_absent<V>(ms: Seq<(Seq<char>, V)>, k: Seq<char>)
    requires
        !has_key(ms, k),
    ensures
        key_index(ms, k) == -1,
{
}

/// A well-formed JSON value: no object, at any depth, repeats a key.
pub open spec fn valid_json(v: JsonV) -> bool
    decreases v,
{
    match v {
        JsonV::Array(xs) => forall|i: int| 0 <= i < xs.len() ==> valid_json(#[trigger] xs[i]),
        JsonV::Object(ms) => distinct_keys(ms) && forall|i: int| 0 <= i < ms.len() ==> valid_json(#[trigger] ms[i].1),
        _ => true,
    }
}

proof fn lemma_merge_prefix_unnamed(t: JsonV, p: JsonV, n: nat, j: Seq<char>)
    requires
        t is Object,
        distinct_keys(members_of(t)),
        p is Object,
        n <= members_of(p).len(),
        forall|i: int| 0 <= i < n ==> members_of(p)[i].0 != j,
    ensures
        merge_prefix(t, p, n) is Object,
        distinct_keys(members_of(merge_prefix(t, p, n))),
        has_key(members_of(merge_prefix(t, p, n)), j) == has_key(members_of(t), j),
        has_key(members_of(t), j) ==> get_key(members_of(merge_prefix(t, p, n)), j) == get_key(members_of(t), j),
    decreases n,
{
    if n > 0 {
        lemma_merge_prefix_unnamed(t, p, (n - 1) as nat, j);
        let acc = members_of(merge_prefix(t, p, (n - 1) as nat));
        let pm = members_of(p);
        let k = pm[n - 1].0;
        let v = pm[n - 1].1;
        match v {
            JsonV::Null => crate::storage::lemma_remove_key_distinct(acc, k),
            JsonV::Object(_) => {
                let base = if key_index(acc, k) >= 0 {
                    get_key(acc, k)
                } else {
                    JsonV::Object(Seq::empty())
                };
                crate::storage::lemma_put_key_distinct(acc, k, merge_prefix(base, v, patch_len(v)));
            },
            _ => crate::storage::lemma_put_key_distinct(acc, k, v),
        }
    }
}

/// An object patch leaves every member of a well-formed object target that
/// it does not name as it was, and keeps the keys distinct.
pub proof fn lemma_merge_keeps_unnamed(t: JsonV, p: JsonV, j: Seq<char>)
    requires
        t is Object,
        valid_json(t),
        p is Object,
        !has_key(members_of(p), j),
    ensures
        merge_patch(t, p) is Object,
        distinct_keys(members_of(merge_patch(t, p))),
        has_key(members_of(merge_patch(t, p)), j) == has_key(members_of(t), j),
        has_key(members_of(t), j) ==> get_key(members_of(merge_patch(t, p)), j) == get_key(members_of(t), j),
{
    let pm = members_of(p);
    assert forall|i: int| 0 <= i < pm.len() implies pm[i].0 != j by {
        if pm[i].0 == j {
            assert(has_key(pm, j));
        }
    }
    lemma_merge_prefix_unnamed(t, p, pm.len(), j);
}

/// Merge-patching an object with the empty patch `{}` leaves it unchanged.
pub proof fn lemma_merge_empty_patch(t: JsonV)
    requires
        t is Object,
    ensures
        merge_patch(t, JsonV::Object(Seq::empty())) == t,
{
}

/// Any patch that is not an object replaces the target entirely.
pub proof fn lemma_merge_non_object_replaces(t: JsonV, p: JsonV)
    requires
        !(p is Object),
    ensures
        merge_patch(t, p) == p,
{
}

/// Patch `{k: null}` removes `k` from an object whose keys are distinct, and
/// leaves the object unchanged when `k` is absent.
pub proof fn lemma_merge_null_removes(t: JsonV, k: Seq<char>)
    requires
        t is Object,
        valid_json(t),
    ensures
        merge_patch(t, JsonV::Object(seq![(k, JsonV::Null)])) == JsonV::Object(remove_key(members_of(t), k)),
        !has_key(members_of(merge_patch(t, JsonV::Object(seq![(k, JsonV::Null)]))), k),
        !has_key(members_of(t), k) ==> merge_patch(t, JsonV::Object(seq![(k, JsonV::Null)])) == t,
{
    let p = JsonV::Object(seq![(k, JsonV::Null)]);
    let ms = members_of(t);
    assert(merge_prefix(t, p, 0) == JsonV::Object(ms));
    let r = merge_patch(t, p);
    assert(r == JsonV::Object(remove_key(ms, k)));
    if has_key(ms, k) {
        lemma_key_index_found(ms, k);
        let idx = key_index(ms, k);
        let out = ms.remove(idx);
        assert(remove_key(ms, k) == out);
        assert forall|i: int| 0 <= i < out.len() implies out[i].0 != k by {
            if i < idx {
                assert(out[i] == ms[i]);
            } else {
                assert(out[i] == ms[i + 1]);
            }
        }
    } else {
        lemma_key_index_absent(ms, k);
        assert(t == JsonV::Object(ms));
    }
}

/// A nested object patch `{k: q}` merges into member `k` and leaves every other
/// member of the target as it was.
pub proof fn lemma_merge_nested_keeps_siblings(t: JsonV, k: Seq<char>, q: JsonV, other: Seq<char>)
    requires
        t is Object,
        valid_json(t),
        q is Object,
        has_key(members_of(t), k),
        other != k,
    ensures
        merge_patch(t, JsonV::Object(seq![(k, q)])) is Object,
        get_key(members_of(merge_patch(t, JsonV::Object(seq![(k, q)]))), k) == merge_patch(
            get_key(members_of(t), k),
            q,
        ),
        has_key(members_of(merge_patch(t, JsonV::Object(seq![(k, q)]))), other) == has_key(
            members_of(t),
            other,
        ),
        has_key(members_of(t), other) ==> get_key(members_of(merge_patch(t, JsonV::Object(seq![(k, q)]))), other)
            == get_key(members_of(t), other),
        forall|inner: Seq<char>|
            get_key(members_of(t), k) is Object && !has_key(members_of(q), inner) && has_key(
                members_of(get_key(members_of(t), k)),
                inner,
            ) ==> #[trigger] get_key(
                members_of(get_key(members_of(merge_patch(t, JsonV::Object(seq![(k, q)]))), k)),
                inner,
            ) == get_key(members_of(get_key(members_of(t), k)), inner),
{

    let p = JsonV::Object(seq![(k, q)]);
    let ms = members_of(t);
    assert(merge_prefix(t, p, 0) == JsonV::Object(ms));
    lemma_key_index_found(ms, k);
    let idx = key_index(ms, k);
    let nv = merge_patch(get_key(ms, k), q);
    let out = ms.update(idx, (k, nv));
    assert(merge_patch(t, p) == JsonV::Object(out));
    assert(is_first_key(out, k, idx));
    assert(key_index(out, k) == idx);
    assert forall|i: int| 0 <= i < ms.len() && i != idx implies out[i] == ms[i] by {}
    assert(has_key(out, other) == has_key(ms, other)) by {
        if has_key(ms, other) {
            let w = choose|i: int| 0 <= i < ms.len() && ms[i].0 == other;
            assert(out[w].0 == other);
        }
        if has_key(out, other) {
            let w = choose|i: int| 0 <= i < out.len() && out[i].0 == other;
            assert(ms[w].0 == other);
        }
    }
    if has_key(ms, other) {
        lemma_key_index_found(ms, other);
        lemma_key_index_found(out, other);
        let a = key_index(ms, other);
        let b = key_index(out, other);
        assert(out[a].0 == other);
        assert(ms[b].0 == other);
        assert(a == b);
    }
    lemma_key_index_found(members_of(t), k);
    let old_k = get_key(members_of(t), k);
    assert(valid_json(old_k));
    assert forall|inner: Seq<char>|
        old_k is Object && !has_key(members_of(q), inner) && has_key(members_of(old_k), inner) implies #[trigger] get_key(
        members_of(get_key(members_of(merge_patch(t, JsonV::Object(seq![(k, q)]))), k)),
        inner,
    ) == get_key(members_of(old_k), inner) by {
        lemma_merge_keeps_unnamed(old_k, q, inner);
    }
}

} // verus!
