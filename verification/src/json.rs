//! A JSON document model the library reads and builds: the layout documents
//! Oryx serves and the layout cache, key by key.
use crate::text::str_eq;
use vstd::prelude::*;

verus! {

/// A JSON number as the layout documents carry it.
#[derive(Debug, Clone, Copy, PartialEq, Eq)]
pub enum JsonNumber {
    /// A non-negative integer.
    PosInt(u64),
    /// A negative integer.
    NegInt(i64),
    /// Any other number, held as the bits of its IEEE-754 double; the library
    /// never interprets it, only carries it along.
    FloatBits(u64),
}

/// A JSON value. Object members keep their order, and lookups take the first
/// member with the key (see [`unique_keys`] for documents without repeats).
#[derive(Debug, PartialEq)]
pub enum Json {
    Null,
    Bool(bool),
    Number(JsonNumber),
    String(String),
    Array(Vec<Json>),
    Object(Vec<(String, Json)>),
}

/// The value of the first member of `fields` named `key`.
pub open spec fn member(fields: Seq<(String, Json)>, key: Seq<char>) -> Option<Json>
    decreases fields.len(),
{
    if fields.len() == 0 {
        None
    } else if fields[0].0@ == key {
        Some(fields[0].1)
    } else {
        member(fields.drop_first(), key)
    }
}

/// Member `key` of `v` when `v` is an object (`Value::get` with a key).
pub open spec fn json_get(v: Json, key: Seq<char>) -> Option<Json> {
    match v {
        Json::Object(fields) => member(fields@, key),
        _ => None,
    }
}

/// Member `key` of an optional object.
pub open spec fn opt_get(v: Option<Json>, key: Seq<char>) -> Option<Json> {
    match v {
        Some(j) => json_get(j, key),
        None => None,
    }
}

/// The elements of `v` when it is an array (`Value::as_array`).
pub open spec fn as_array(v: Option<Json>) -> Option<Seq<Json>> {
    match v {
        Some(Json::Array(items)) => Some(items@),
        _ => None,
    }
}

/// `v` as a `u64` (`Value::as_u64`): only non-negative integers qualify.
pub open spec fn as_u64(v: Option<Json>) -> Option<u64> {
    match v {
        Some(Json::Number(JsonNumber::PosInt(n))) => Some(n),
        _ => None,
    }
}

/// `v` as an `i64` (`Value::as_i64`): integers that fit in an `i64`.
pub open spec fn as_i64(v: Option<Json>) -> Option<i64> {
    match v {
        Some(Json::Number(JsonNumber::PosInt(n))) => if n <= i64::MAX as u64 {
            Some(n as i64)
        } else {
            None
        },
        Some(Json::Number(JsonNumber::NegInt(n))) => Some(n),
        _ => None,
    }
}

/// `v` is a string holding exactly `s`.
pub open spec fn is_string_of(v: Option<Json>, s: Seq<char>) -> bool {
    v matches Some(Json::String(x)) && x@ == s
}

/// `v` is the boolean `true`.
pub open spec fn is_true(v: Option<Json>) -> bool {
    v == Some(Json::Bool(true))
}

/// Where the first member of `fields` named `key` stands; `fields.len()`
/// when no member has that name.
pub open spec fn key_index(fields: Seq<(String, Json)>, key: Seq<char>) -> int
    decreases fields.len(),
{
    if fields.len() == 0 {
        0
    } else if fields[0].0@ == key {
        0
    } else {
        1 + key_index(fields.drop_first(), key)
    }
}

/// The member list `rf` is `vf` with member `key` set to `value`: the first
/// member named `key` has its value replaced in place, or, when there is
/// none, a member `(key, value)` is appended. Every other member stays
/// where and as it was.
pub open spec fn fields_with(
    rf: Seq<(String, Json)>,
    vf: Seq<(String, Json)>,
    key: Seq<char>,
    value: Json,
) -> bool {
    let i = key_index(vf, key);
    if i < vf.len() {
        &&& rf.len() == vf.len()
        &&& rf[i].0@ == key
        &&& rf[i].1 == value
        &&& forall|j: int| 0 <= j < vf.len() && j != i ==> rf[j] == vf[j]
    } else {
        &&& rf.len() == vf.len() + 1
        &&& rf.drop_last() == vf
        &&& rf.last().0@ == key
        &&& rf.last().1 == value
    }
}

/// `r` is the object `v` with member `key` set to `value` (see
/// [`fields_with`]); so a lookup of `key` gives `value` and a lookup of any
/// other key gives what it gave before.
pub open spec fn with_member(r: Json, v: Json, key: Seq<char>, value: Json) -> bool {
    &&& r matches Json::Object(rf) && v matches Json::Object(vf) && fields_with(rf@, vf@, key, value)
    &&& json_get(r, key) == Some(value)
    &&& forall|k: Seq<char>| k != key ==> json_get(r, k) == json_get(v, k)
}

/// No two members of `fields` share a name.
pub open spec fn unique_keys(fields: Seq<(String, Json)>) -> bool {
    forall|i: int, j: int| 0 <= i < j < fields.len() ==> (#[trigger] fields[i]).0@ != (#[trigger] fields[j]).0@
}

impl Json {
    /// Member `key` of this value when it is an object (`Value::get`).
    pub fn get<'a>(&'a self, key: &str) -> (r: Option<&'a Json>)
        ensures
            match r {
                Some(x) => json_get(*self, key@) == Some(*x),
                None => json_get(*self, key@) is None,
            },
    {
        match self {
            Json::Object(fields) => {
                let n = fields.len();
                let mut i: usize = 0;
                assert(fields@.skip(0) =~= fields@);
                while i < n
                    invariant
                        i <= n == fields@.len(),
                        json_get(*self, key@) == member(fields@, key@),
                        member(fields@, key@) == member(fields@.skip(i as int), key@),
                    decreases n - i,
                {
                    assert(fields@.skip(i as int).drop_first() =~= fields@.skip(i + 1));
                    assert(fields@.skip(i as int)[0] == fields@[i as int]);
                    if str_eq(fields[i].0.as_str(), key) {
                        return Some(&fields[i].1);
                    }
                    i = i + 1;
                }
                None
            },
            _ => None,
        }
    }

    /// Sets member `key` of an object to `value`: an existing member keeps
    /// its place, a new one is appended.
    pub fn set_member(&mut self, key: &str, value: Json)
        requires
            *old(self) is Object,
        ensures
            with_member(*final(self), *old(self), key@, value),
    {
        if let Json::Object(fields) = self {
            let ghost old_fields = fields@;
            let n = fields.len();
            let mut i: usize = 0;
            while i < n
                invariant
                    i <= n == fields@.len(),
                    fields@ == old_fields,
                    forall|k: int| 0 <= k < i ==> (#[trigger] fields@[k]).0@ != key@,
                ensures
                    i <= n == fields@.len(),
                    fields@ == old_fields,
                    forall|k: int| 0 <= k < i ==> (#[trigger] fields@[k]).0@ != key@,
                    i < n ==> fields@[i as int].0@ == key@,
                decreases n - i,
            {
                if str_eq(fields[i].0.as_str(), key) {
                    break;
                }
                i = i + 1;
            }
            let entry = (key.to_owned(), value);
            if i < n {
                fields.set(i, entry);
                proof {
                    lemma_key_index(old_fields, key@);
                    lemma_member_at(fields@, i as int, key@);
                    assert forall|k: Seq<char>| k != key@ implies member(fields@, k) == member(
                        old_fields,
                        k,
                    ) by {
                        lemma_member_update(old_fields, i as int, entry, k);
                    }
                }
            } else {
                fields.push(entry);
                proof {
                    lemma_key_index(old_fields, key@);
                    assert(fields@.drop_last() =~= old_fields);
                    lemma_member_at(fields@, i as int, key@);
                    assert forall|k: Seq<char>| k != key@ implies member(fields@, k) == member(
                        old_fields,
                        k,
                    ) by {
                        lemma_member_push(old_fields, entry, k);
                    }
                }
            }
        }
    }
}

/// [`key_index`] is the place of the first member named `key`, or the
/// length when there is none.
pub proof fn lemma_key_index(f: Seq<(String, Json)>, key: Seq<char>)
    ensures
        0 <= key_index(f, key) <= f.len(),
        forall|k: int| 0 <= k < key_index(f, key) ==> (#[trigger] f[k]).0@ != key,
        key_index(f, key) < f.len() ==> f[key_index(f, key)].0@ == key,
    decreases f.len(),
{
    if f.len() > 0 && f[0].0@ != key {
        let rest = f.drop_first();
        lemma_key_index(rest, key);
        assert forall|k: int| 0 <= k < key_index(f, key) implies (#[trigger] f[k]).0@ != key by {
            if k > 0 {
                assert(f[k] == rest[k - 1]);
            }
        }
        if key_index(f, key) < f.len() {
            assert(f[key_index(f, key)] == rest[key_index(rest, key)]);
        }
    }
}

/// Setting a member never gives an object two members of one name: if the
/// names in `v` are distinct, so are those in `r`.
pub proof fn lemma_with_member_keeps_keys_unique(r: Json, v: Json, key: Seq<char>, value: Json)
    requires
        with_member(r, v, key, value),
        v matches Json::Object(vf) && unique_keys(vf@),
    ensures
        r matches Json::Object(rf) && unique_keys(rf@),
{
    if let (Json::Object(rf), Json::Object(vf)) = (r, v) {
        let (rf, vf) = (rf@, vf@);
        lemma_key_index(vf, key);
        let i = key_index(vf, key);
        if i < vf.len() {
            assert forall|a: int| 0 <= a < rf.len() implies (#[trigger] rf[a]).0@ == vf[a].0@ by {
            }
            assert forall|a: int, b: int| 0 <= a < b < rf.len() implies (#[trigger] rf[a]).0@ != (
            #[trigger] rf[b]).0@ by {
                assert(rf[a].0@ == vf[a].0@);
                assert(rf[b].0@ == vf[b].0@);
                assert(vf[a].0@ != vf[b].0@);
            }
        } else {
            assert forall|a: int, b: int| 0 <= a < b < rf.len() implies (#[trigger] rf[a]).0@ != (
            #[trigger] rf[b]).0@ by {
                assert(rf[a] == rf.drop_last()[a]);
                if b < vf.len() {
                    assert(rf[b] == rf.drop_last()[b]);
                    assert(vf[a].0@ != vf[b].0@);
                } else {
                    assert(rf[b] == rf.last());
                    assert(vf[a].0@ != key);
                }
            }
        }
    }
}

/// The first member named `key` decides a lookup.
pub proof fn lemma_member_at(f: Seq<(String, Json)>, i: int, key: Seq<char>)
    requires
        0 <= i < f.len(),
        f[i].0@ == key,
        forall|k: int| 0 <= k < i ==> (#[trigger] f[k]).0@ != key,
    ensures
        member(f, key) == Some(f[i].1),
    decreases i,
{
    if i > 0 {
        let rest = f.drop_first();
        assert forall|k: int| 0 <= k < i - 1 implies (#[trigger] rest[k]).0@ != key by {
            assert(rest[k] == f[k + 1]);
        }
        lemma_member_at(rest, i - 1, key);
    }
}

/// Replacing a member named neither `key` before nor after leaves the lookup
/// of `key` unchanged.
pub proof fn lemma_member_update(f: Seq<(String, Json)>, i: int, p: (String, Json), key: Seq<char>)
    requires
        0 <= i < f.len(),
        f[i].0@ != key,
        p.0@ != key,
    ensures
        member(f.update(i, p), key) == member(f, key),
    decreases f.len(),
{
    let g = f.update(i, p);
    if i > 0 {
        assert(g.drop_first() =~= f.drop_first().update(i - 1, p));
        lemma_member_update(f.drop_first(), i - 1, p, key);
    } else {
        assert(g.drop_first() =~= f.drop_first());
    }
}

/// Appending a member named other than `key` leaves the lookup of `key`
/// unchanged.
pub proof fn lemma_member_push(f: Seq<(String, Json)>, p: (String, Json), key: Seq<char>)
    requires
        p.0@ != key,
    ensures
        member(f.push(p), key) == member(f, key),
    decreases f.len(),
{
    assert(f.push(p)[0] == if f.len() == 0 { p } else { f[0] });
    if f.len() == 0 {
        assert(f.push(p).drop_first() =~= Seq::<(String, Json)>::empty());
        assert(member(Seq::<(String, Json)>::empty(), key) is None);
    } else {
        assert(f.push(p).drop_first() =~= f.drop_first().push(p));
        lemma_member_push(f.drop_first(), p, key);
    }
}

} // verus!
