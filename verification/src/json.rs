//! JSON values as `serde_json` holds them, described by a mathematical model,
//! and the recursive merge used to combine a generated manifest with
//! user-supplied JSON.
use vstd::prelude::*;

verus! {

/// `serde_json::Value`, carried through the library as an opaque value whose
/// contents are described by [`json_model`].
#[verifier::external_type_specification]
#[verifier::external_body]
pub struct ExJsonValue(serde_json::Value);

/// Mathematical model of a JSON value. Numbers are held as the text that
/// `serde_json` writes for them; objects as their entries in order.
pub enum Json {
    Null,
    Bool(bool),
    Number(Seq<char>),
    Str(Seq<char>),
    Array(Seq<Json>),
    Object(Seq<(Seq<char>, Json)>),
}

/// What a `serde_json::Value` holds.
pub uninterp spec fn json_model(v: serde_json::Value) -> Json;

/// The value that `serde_json::from_str` reads from a text, or `None` where
/// the text is not JSON.
pub uninterp spec fn json_of_text(text: Seq<char>) -> Option<Json>;

/// The message (`Display`) of the error that `serde_json::from_str` gives
/// for a text that is not JSON.
pub uninterp spec fn json_error_text(text: Seq<char>) -> Seq<char>;

/// The text that `serde_json::to_string_pretty` writes for a value.
pub uninterp spec fn pretty_json_text(j: Json) -> Seq<char>;

/// Decimal digits of a natural number, most significant first.
pub open spec fn decimal_text(n: nat) -> Seq<char>
    decreases n,
{
    if n < 10 {
        seq![digit_char(n)]
    } else {
        decimal_text(n / 10).push(digit_char(n % 10))
    }
}

pub open spec fn digit_char(d: nat) -> char {
    if d == 0 { '0' } else if d == 1 { '1' } else if d == 2 { '2' } else if d == 3 { '3' }
    else if d == 4 { '4' } else if d == 5 { '5' } else if d == 6 { '6' } else if d == 7 { '7' }
    else if d == 8 { '8' } else { '9' }
}

/// Index of the first entry with key `k`, if any.
pub open spec fn key_index(es: Seq<(Seq<char>, Json)>, k: Seq<char>) -> Option<int>
    decreases es.len(),
{
    if es.len() == 0 {
        None
    } else if es[0].0 == k {
        Some(0)
    } else {
        match key_index(es.subrange(1, es.len() as int), k) {
            Some(i) => Some(i + 1),
            None => None,
        }
    }
}

/// No two entries share a key.
pub open spec fn distinct_keys(es: Seq<(Seq<char>, Json)>) -> bool {
    forall|i: int, j: int| 0 <= i < j < es.len() ==> es[i].0 != es[j].0
}

/// Setting a key of an ordered map: an existing key keeps its place and
/// takes the new value; a new key goes last.
pub open spec fn upsert(es: Seq<(Seq<char>, Json)>, k: Seq<char>, v: Json) -> Seq<(Seq<char>, Json)> {
    match key_index(es, k) {
        Some(i) => es.update(i, (k, v)),
        None => es.push((k, v)),
    }
}

/// The value under key `k`, if any.
pub open spec fn lookup(es: Seq<(Seq<char>, Json)>, k: Seq<char>) -> Option<Json> {
    match key_index(es, k) {
        Some(i) => Some(es[i].1),
        None => None,
    }
}

/// Recursive merge of `extra` into `base`: two objects merge key by key,
/// where a key of `extra` that `base` has is merged into its value in place
/// and a new key is added last; any other `extra` replaces `base`.
pub open spec fn merge(base: Json, extra: Json) -> Json
    decreases extra,
{
    match extra {
        Json::Object(es) => match base {
            Json::Object(bs) => Json::Object(merge_entries(bs, es)),
            _ => extra,
        },
        _ => extra,
    }
}

/// The entries of `bs` after merging the entries of `es` into them, in order.
pub open spec fn merge_entries(bs: Seq<(Seq<char>, Json)>, es: Seq<(Seq<char>, Json)>) -> Seq<(Seq<char>, Json)>
    decreases es,
{
    if es.len() == 0 {
        bs
    } else {
        let k = es[0].0;
        let v = es[0].1;
        let merged = match key_index(bs, k) {
            Some(i) => merge(bs[i].1, v),
            None => v,
        };
        merge_entries(upsert(bs, k, merged), es.subrange(1, es.len() as int))
    }
}

pub proof fn lemma_key_index(es: Seq<(Seq<char>, Json)>, k: Seq<char>)
    ensures
        match key_index(es, k) {
            Some(i) => 0 <= i < es.len() && es[i].0 == k && forall|j: int| 0 <= j < i ==> es[j].0 != k,
            None => forall|j: int| 0 <= j < es.len() ==> es[j].0 != k,
        },
    decreases es.len(),
{
    if es.len() > 0 && es[0].0 != k {
        let rest = es.subrange(1, es.len() as int);
        lemma_key_index(rest, k);
        assert forall|j: int| 1 <= j < es.len() implies es[j] == rest[j - 1] by {}
    }
}

/// `key_index` is the first index holding the key.
pub proof fn lemma_key_index_first(es: Seq<(Seq<char>, Json)>, k: Seq<char>, i: int)
    requires
        0 <= i < es.len(),
        es[i].0 == k,
        forall|j: int| 0 <= j < i ==> es[j].0 != k,
    ensures
        key_index(es, k) == Some(i),
{
    lemma_key_index(es, k);
}

/// Setting a key changes what that key reads and nothing else.
pub proof fn lemma_lookup_upsert(es: Seq<(Seq<char>, Json)>, k: Seq<char>, v: Json, k2: Seq<char>)
    ensures
        lookup(upsert(es, k, v), k2) == (if k2 == k { Some(v) } else { lookup(es, k2) }),
        forall|i: int| 0 <= i < es.len() ==> (#[trigger] upsert(es, k, v)[i]).0 == es[i].0,
        upsert(es, k, v).len() == es.len() + (if key_index(es, k) is Some { 0int } else { 1int }),
{
    lemma_key_index(es, k);
    lemma_key_index(es, k2);
    let us = upsert(es, k, v);
    match key_index(es, k) {
        Some(i) => {
            assert(forall|j: int| 0 <= j < us.len() ==> #[trigger] us[j].0 == es[j].0);
            match key_index(es, k2) {
                Some(i2) => lemma_key_index_first(us, k2, i2),
                None => {
                    lemma_key_index(us, k2);
                },
            }
        },
        None => {
            if k2 == k {
                lemma_key_index_first(us, k2, es.len() as int);
            } else {
                match key_index(es, k2) {
                    Some(i2) => lemma_key_index_first(us, k2, i2),
                    None => {
                        lemma_key_index(us, k2);
                    },
                }
            }
        },
    }
}

/// Law: merging objects, a key of `extra` reads the merge of the two values
/// when `base` has it and the value of `extra` when it does not; any other
/// key reads as in `base`.
pub proof fn lemma_merge_lookup(bs: Seq<(Seq<char>, Json)>, es: Seq<(Seq<char>, Json)>, k: Seq<char>)
    requires
        distinct_keys(es),
    ensures
        lookup(merge_entries(bs, es), k) == match lookup(es, k) {
            Some(e) => Some(match lookup(bs, k) {
                Some(b) => merge(b, e),
                None => e,
            }),
            None => lookup(bs, k),
        },
    decreases es.len(),
{
    if es.len() > 0 {
        let k0 = es[0].0;
        let v0 = es[0].1;
        let rest = es.subrange(1, es.len() as int);
        lemma_key_index(bs, k0);
        let m0 = match key_index(bs, k0) {
            Some(i) => merge(bs[i].1, v0),
            None => v0,
        };
        let bs1 = upsert(bs, k0, m0);
        assert(distinct_keys(rest)) by {
            assert forall|i: int, j: int| 0 <= i < j < rest.len() implies rest[i].0 != rest[j].0 by {
                assert(rest[i] == es[i + 1] && rest[j] == es[j + 1]);
            }
        }
        lemma_merge_lookup(bs1, rest, k);
        lemma_lookup_upsert(bs, k0, m0, k);
        lemma_key_index(es, k);
        lemma_key_index(rest, k);
        if k == k0 {
            assert forall|j: int| 0 <= j < rest.len() implies rest[j].0 != k by {
                assert(rest[j] == es[j + 1]);
            }
            assert(lookup(rest, k) is None);
            assert(key_index(es, k) == Some(0int));
        } else {
            match key_index(rest, k) {
                Some(i) => {
                    assert(rest[i] == es[i + 1]);
                    assert forall|j: int| 0 <= j < i + 1 implies es[j].0 != k by {
                        if j > 0 {
                            assert(rest[j - 1] == es[j]);
                        }
                    }
                    lemma_key_index_first(es, k, i + 1);
                },
                None => {
                    assert forall|j: int| 0 <= j < es.len() implies es[j].0 != k by {
                        if j > 0 {
                            assert(rest[j - 1] == es[j]);
                        }
                    }
                },
            }
        }
    }
}

/// Law: unless both values are objects, the merge is `extra` itself; so an
/// array, in particular, replaces what it is merged into.
pub proof fn lemma_merge_replaces(base: Json, extra: Json)
    requires
        !(base is Object) || !(extra is Object),
    ensures
        merge(base, extra) == extra,
{
}

/// Law: merging an empty object into an object leaves it as it was.
pub proof fn lemma_merge_empty(bs: Seq<(Seq<char>, Json)>)
    ensures
        merge(Json::Object(bs), Json::Object(Seq::empty())) == Json::Object(bs),
{
}

/// Law: merging objects keeps every key of `base` in its place; the result
/// only grows.
pub proof fn lemma_merge_keeps_base_keys(bs: Seq<(Seq<char>, Json)>, es: Seq<(Seq<char>, Json)>)
    ensures
        merge_entries(bs, es).len() >= bs.len(),
        forall|i: int| 0 <= i < bs.len() ==> (#[trigger] merge_entries(bs, es)[i]).0 == bs[i].0,
    decreases es.len(),
{
    if es.len() > 0 {
        let k0 = es[0].0;
        let v0 = es[0].1;
        let rest = es.subrange(1, es.len() as int);
        let m0 = match key_index(bs, k0) {
            Some(i) => merge(bs[i].1, v0),
            None => v0,
        };
        let bs1 = upsert(bs, k0, m0);
        lemma_lookup_upsert(bs, k0, m0, k0);
        lemma_merge_keeps_base_keys(bs1, rest);
        assert forall|i: int| 0 <= i < bs.len() implies (#[trigger] merge_entries(bs, es)[i]).0 == bs[i].0 by {
            assert(bs1[i].0 == bs[i].0);
            assert(merge_entries(bs1, rest)[i].0 == bs1[i].0);
        }
    }
}

/// Entries with equal keys in order find the same first index.
pub proof fn lemma_key_index_same_keys(a: Seq<(Seq<char>, Json)>, b: Seq<(Seq<char>, Json)>, k: Seq<char>)
    requires
        a.len() == b.len(),
        forall|j: int| 0 <= j < a.len() ==> a[j].0 == b[j].0,
    ensures
        key_index(a, k) == key_index(b, k),
{
    lemma_key_index(a, k);
    lemma_key_index(b, k);
    match key_index(a, k) {
        Some(i) => lemma_key_index_first(b, k, i),
        None => {},
    }
}

/// The entries of `es` whose keys `bs` does not have, in order.
pub open spec fn new_entries(bs: Seq<(Seq<char>, Json)>, es: Seq<(Seq<char>, Json)>) -> Seq<(Seq<char>, Json)>
    decreases es.len(),
{
    if es.len() == 0 {
        Seq::empty()
    } else {
        let rest = new_entries(bs, es.subrange(1, es.len() as int));
        if key_index(bs, es[0].0) is None {
            seq![es[0]] + rest
        } else {
            rest
        }
    }
}

/// Entries with the same keys in order leave the same entries new.
proof fn lemma_new_entries_same_keys(a: Seq<(Seq<char>, Json)>, b: Seq<(Seq<char>, Json)>, es: Seq<(Seq<char>, Json)>)
    requires
        a.len() == b.len(),
        forall|j: int| 0 <= j < a.len() ==> a[j].0 == b[j].0,
    ensures
        new_entries(a, es) == new_entries(b, es),
    decreases es.len(),
{
    if es.len() > 0 {
        lemma_key_index_same_keys(a, b, es[0].0);
        lemma_new_entries_same_keys(a, b, es.subrange(1, es.len() as int));
    }
}

/// A key that `es` does not hold, added to `bs`, leaves the same entries new.
proof fn lemma_new_entries_push(bs: Seq<(Seq<char>, Json)>, e: (Seq<char>, Json), es: Seq<(Seq<char>, Json)>)
    requires
        forall|j: int| 0 <= j < es.len() ==> (#[trigger] es[j]).0 != e.0,
    ensures
        new_entries(bs.push(e), es) == new_entries(bs, es),
    decreases es.len(),
{
    if es.len() > 0 {
        let k = es[0].0;
        let rest = es.subrange(1, es.len() as int);
        assert forall|j: int| 0 <= j < rest.len() implies (#[trigger] rest[j]).0 != e.0 by {
            assert(rest[j] == es[j + 1]);
        }
        lemma_key_index(bs, k);
        lemma_key_index(bs.push(e), k);
        match key_index(bs, k) {
            Some(i) => lemma_key_index_first(bs.push(e), k, i),
            None => assert(key_index(bs.push(e), k) is None),
        }
        lemma_new_entries_push(bs, e, rest);
    }
}

/// An entry whose key `es` does not hold is left as it is by the merge.
proof fn lemma_merge_untouched(bs: Seq<(Seq<char>, Json)>, es: Seq<(Seq<char>, Json)>, i: int)
    requires
        0 <= i < bs.len(),
        forall|j: int| 0 <= j < es.len() ==> (#[trigger] es[j]).0 != bs[i].0,
    ensures
        i < merge_entries(bs, es).len(),
        merge_entries(bs, es)[i] == bs[i],
    decreases es.len(),
{
    if es.len() > 0 {
        let k0 = es[0].0;
        let v0 = es[0].1;
        let rest = es.subrange(1, es.len() as int);
        let m0 = match key_index(bs, k0) {
            Some(x) => merge(bs[x].1, v0),
            None => v0,
        };
        let bs1 = upsert(bs, k0, m0);
        lemma_key_index(bs, k0);
        assert(bs1[i] == bs[i]);
        assert forall|j: int| 0 <= j < rest.len() implies (#[trigger] rest[j]).0 != bs1[i].0 by {
            assert(rest[j] == es[j + 1]);
        }
        lemma_merge_untouched(bs1, rest, i);
    }
}

/// Law: merging objects adds the keys of `extra` that `base` lacks at the
/// end, in the order `extra` lists them, with their values from `extra`;
/// nothing else follows the keys of `base`.
pub proof fn lemma_merge_appends_new_keys(bs: Seq<(Seq<char>, Json)>, es: Seq<(Seq<char>, Json)>)
    requires
        distinct_keys(es),
    ensures
        merge_entries(bs, es).len() == bs.len() + new_entries(bs, es).len(),
        merge_entries(bs, es).subrange(bs.len() as int, merge_entries(bs, es).len() as int) == new_entries(bs, es),
    decreases es.len(),
{
    if es.len() > 0 {
        let k0 = es[0].0;
        let v0 = es[0].1;
        let rest = es.subrange(1, es.len() as int);
        assert(distinct_keys(rest)) by {
            assert forall|i: int, j: int| 0 <= i < j < rest.len() implies rest[i].0 != rest[j].0 by {
                assert(rest[i] == es[i + 1] && rest[j] == es[j + 1]);
            }
        }
        assert forall|j: int| 0 <= j < rest.len() implies (#[trigger] rest[j]).0 != k0 by {
            assert(rest[j] == es[j + 1]);
        }
        lemma_key_index(bs, k0);
        let m0 = match key_index(bs, k0) {
            Some(x) => merge(bs[x].1, v0),
            None => v0,
        };
        let bs1 = upsert(bs, k0, m0);
        lemma_merge_appends_new_keys(bs1, rest);
        let out = merge_entries(bs, es);
        assert(out == merge_entries(bs1, rest));
        match key_index(bs, k0) {
            Some(x) => {
                assert forall|j: int| 0 <= j < bs.len() implies bs1[j].0 == bs[j].0 by {}
                lemma_new_entries_same_keys(bs1, bs, rest);
                assert(new_entries(bs, es) == new_entries(bs, rest));
            },
            None => {
                assert(bs1 == bs.push((k0, v0)));
                lemma_new_entries_push(bs, (k0, v0), rest);
                lemma_merge_untouched(bs1, rest, bs.len() as int);
                assert(new_entries(bs, es) == seq![es[0]] + new_entries(bs, rest));
                assert(out.subrange(bs.len() as int, out.len() as int) =~= seq![es[0]] + out.subrange(
                    bs.len() + 1int,
                    out.len() as int,
                ));
            },
        }
    }
}

/// Well-formed JSON: the keys of every object, at any depth, are distinct.
pub open spec fn json_wf(j: Json) -> bool
    decreases j,
{
    match j {
        Json::Object(es) => distinct_keys(es) && forall|i: int| 0 <= i < es.len() ==> json_wf(#[trigger] es[i].1),
        Json::Array(items) => forall|i: int| 0 <= i < items.len() ==> json_wf(#[trigger] items[i]),
        _ => true,
    }
}

/// Merging entries whose keys `bs` has, each into a value that merging it
/// leaves unchanged, leaves `bs` as it was.
proof fn lemma_merge_entries_fixed(bs: Seq<(Seq<char>, Json)>, es: Seq<(Seq<char>, Json)>)
    requires
        forall|j: int| 0 <= j < es.len() ==> lookup(bs, (#[trigger] es[j]).0) is Some
            && merge(lookup(bs, es[j].0)->Some_0, es[j].1) == lookup(bs, es[j].0)->Some_0,
    ensures
        merge_entries(bs, es) == bs,
    decreases es.len(),
{
    if es.len() > 0 {
        let k0 = es[0].0;
        let v0 = es[0].1;
        let rest = es.subrange(1, es.len() as int);
        assert(lookup(bs, k0) is Some);
        lemma_key_index(bs, k0);
        let i = key_index(bs, k0)->Some_0;
        assert(upsert(bs, k0, merge(bs[i].1, v0)) =~= bs);
        assert forall|j: int| 0 <= j < rest.len() implies lookup(bs, (#[trigger] rest[j]).0) is Some
            && merge(lookup(bs, rest[j].0)->Some_0, rest[j].1) == lookup(bs, rest[j].0)->Some_0 by {
            assert(rest[j] == es[j + 1]);
        }
        lemma_merge_entries_fixed(bs, rest);
    }
}

/// Law: merging a well-formed value into itself gives it back.
pub proof fn lemma_merge_self(j: Json)
    requires
        json_wf(j),
    ensures
        merge(j, j) == j,
    decreases j,
{
    if let Json::Object(es) = j {
        assert forall|i: int| 0 <= i < es.len() implies lookup(es, (#[trigger] es[i]).0) == Some(es[i].1)
            && merge(es[i].1, es[i].1) == es[i].1 by {
            let e = es[i];
            assert(decreases_to!(j => es));
            assert(decreases_to!(es => e));
            assert(decreases_to!(e => e.1));
            lemma_merge_self(es[i].1);
            assert forall|m: int| 0 <= m < i implies es[m].0 != es[i].0 by {}
            lemma_key_index_first(es, es[i].0, i);
        }
        lemma_merge_entries_fixed(es, es);
    }
}

/// Law: merging the same well-formed value a second time changes nothing.
pub proof fn lemma_merge_twice(base: Json, extra: Json)
    requires
        json_wf(extra),
    ensures
        merge(merge(base, extra), extra) == merge(base, extra),
    decreases extra,
{
    match extra {
        Json::Object(es) => match base {
            Json::Object(bs) => {
                let out = merge_entries(bs, es);
                assert forall|j: int| 0 <= j < es.len() implies lookup(out, (#[trigger] es[j]).0) is Some
                    && merge(lookup(out, es[j].0)->Some_0, es[j].1) == lookup(out, es[j].0)->Some_0 by {
                    let e = es[j];
                    assert(decreases_to!(extra => es));
                    assert(decreases_to!(es => e));
                    assert(decreases_to!(e => e.1));
                    assert forall|m: int| 0 <= m < j implies es[m].0 != es[j].0 by {}
                    lemma_key_index_first(es, e.0, j);
                    lemma_merge_lookup(bs, es, e.0);
                    match lookup(bs, e.0) {
                        Some(b) => lemma_merge_twice(b, e.1),
                        None => lemma_merge_self(e.1),
                    }
                }
                lemma_merge_entries_fixed(out, es);
            },
            _ => lemma_merge_self(extra),
        },
        _ => {},
    }
}

// ---------------------------------------------------------------------------
// Trusted access to serde_json values.

/// `serde_json::Value::String`: a JSON string.
#[verifier::external_body]
pub(crate) fn json_string(s: String) -> (v: serde_json::Value)
    ensures
        json_model(v) == Json::Str(s@),
{
    serde_json::Value::String(s)
}

/// `serde_json::Value::Bool`: a JSON boolean.
#[verifier::external_body]
pub(crate) fn json_bool(b: bool) -> (v: serde_json::Value)
    ensures
        json_model(v) == Json::Bool(b),
{
    serde_json::Value::Bool(b)
}

/// `serde_json::Value::from(u64)`: a JSON number, written in decimal.
#[verifier::external_body]
pub(crate) fn json_u64(n: u64) -> (v: serde_json::Value)
    ensures
        json_model(v) == Json::Number(decimal_text(n as nat)),
{
    serde_json::Value::from(n)
}

/// `serde_json::Value::Array`: a JSON array of the given values, in order.
#[verifier::external_body]
pub(crate) fn json_array(items: Vec<serde_json::Value>) -> (v: serde_json::Value)
    ensures
        json_model(v) == Json::Array(items@.map_values(|x: serde_json::Value| json_model(x))),
{
    serde_json::Value::Array(items)
}

/// `serde_json::Map::new` inside `serde_json::Value::Object`: an empty object.
#[verifier::external_body]
pub(crate) fn json_object() -> (v: serde_json::Value)
    ensures
        json_model(v) == Json::Object(Seq::empty()),
{
    serde_json::Value::Object(serde_json::Map::new())
}

/// `serde_json::Value::is_object`. An object is a `serde_json::Map`, whose
/// keys are unique, and so is every object inside it: an object's model is
/// well-formed.
#[verifier::external_body]
pub(crate) fn json_is_object(v: &serde_json::Value) -> (r: bool)
    ensures
        r == (json_model(*v) is Object),
        r ==> json_wf(json_model(*v)),
{
    v.is_object()
}

/// `serde_json::Map::insert` on an object. With the `preserve_order`
/// feature the map is an `IndexMap`: an existing key keeps its place and
/// takes the new value, a new key is added last.
#[verifier::external_body]
pub(crate) fn json_insert(obj: &mut serde_json::Value, key: String, val: serde_json::Value)
    requires
        json_model(*old(obj)) is Object,
    ensures
        json_model(*final(obj)) == Json::Object(upsert(json_model(*old(obj))->Object_0, key@, json_model(val))),
{
    if let serde_json::Value::Object(m) = obj {
        m.insert(key, val);
    }
}

/// `serde_json::Value::get` with a string index, cloned: the value under a
/// key of an object; `None` for a missing key or a value that is no object.
#[verifier::external_body]
pub(crate) fn json_get(obj: &serde_json::Value, key: &str) -> (r: Option<serde_json::Value>)
    ensures
        match json_model(*obj) {
            Json::Object(es) => match lookup(es, key@) {
                Some(x) => r is Some && json_model(r->Some_0) == x,
                None => r is None,
            },
            _ => r is None,
        },
{
    obj.get(key).cloned()
}

/// `serde_json::Value::as_object`, with the entries cloned out in order. The
/// keys of a `serde_json::Map` are distinct.
#[verifier::external_body]
pub(crate) fn json_entries(v: &serde_json::Value) -> (r: Option<Vec<(String, serde_json::Value)>>)
    ensures
        match json_model(*v) {
            Json::Object(es) => r is Some && distinct_keys(es) && r->Some_0@.len() == es.len()
                && forall|i: int| 0 <= i < es.len() ==>
                    (#[trigger] r->Some_0@[i]).0@ == es[i].0 && json_model(r->Some_0@[i].1) == es[i].1,
            _ => r is None,
        },
{
    v.as_object().map(|m| m.iter().map(|(k, x)| (k.clone(), x.clone())).collect())
}

/// `serde_json::Value::as_str`, copied into a `String`.
#[verifier::external_body]
pub(crate) fn json_as_str(v: &serde_json::Value) -> (r: Option<String>)
    ensures
        match json_model(*v) {
            Json::Str(s) => r is Some && r->Some_0@ == s,
            _ => r is None,
        },
{
    v.as_str().map(|s| s.to_string())
}

/// `serde_json::from_str::<serde_json::Value>`, its error as its message
/// (`Display`).
#[verifier::external_body]
pub(crate) fn json_parse(text: &str) -> (r: Result<serde_json::Value, String>)
    ensures
        match json_of_text(text@) {
            Some(j) => r is Ok && json_model(r->Ok_0) == j,
            None => r is Err && r->Err_0@ == json_error_text(text@),
        },
{
    match serde_json::from_str::<serde_json::Value>(text) {
        Ok(v) => Ok(v),
        Err(e) => Err(e.to_string()),
    }
}

/// `serde_json::to_string_pretty` on a value, its error as its message. It
/// fails only where a `Serialize` impl fails or a map has keys that are no
/// strings; the impl for `serde_json::Value` forwards every part to the
/// serializer and its maps are keyed by strings, so rendering a value succeeds.
#[verifier::external_body]
pub(crate) fn json_render_pretty(v: &serde_json::Value) -> (r: Result<String, String>)
    ensures
        r is Ok,
        r matches Ok(s) ==> s@ == pretty_json_text(json_model(*v)),
{
    match serde_json::to_string_pretty(v) {
        Ok(s) => Ok(s),
        Err(e) => Err(e.to_string()),
    }
}

// ---------------------------------------------------------------------------
// Verified logic.

/// Recursively merge `extra` into `base`. For objects, fields from `extra`
/// override or extend `base`; any other `extra` replaces `base`. Merging the
/// same `extra` into the result again changes nothing.
pub fn merge_json(base: &mut serde_json::Value, extra: serde_json::Value)
    ensures
        json_model(*final(base)) == merge(json_model(*old(base)), json_model(extra)),
        merge(json_model(*final(base)), json_model(extra)) == json_model(*final(base)),
    decreases json_model(extra),
{
    let extra_is_object = json_is_object(&extra);
    proof {
        if extra_is_object {
            lemma_merge_twice(json_model(*base), json_model(extra));
        }
    }
    if json_is_object(base) && extra_is_object {
        let ghost bs0 = json_model(*base)->Object_0;
        let ghost es = json_model(extra)->Object_0;
        let mut entries = match json_entries(&extra) {
            Some(e) => e,
            None => Vec::new(),
        };
        let ghost n = es.len();
        let n_exec = entries.len();
        assert(n == n_exec);
        assert(es.subrange(0, n as int) =~= es);
        let mut i: usize = 0;
        while entries.len() > 0
            invariant
                json_model(*base) is Object,
                i + entries@.len() == n,
                n == es.len(),
                n <= usize::MAX,
                forall|j: int| 0 <= j < entries@.len() ==>
                    (#[trigger] entries@[j]).0@ == es[i + j].0 && json_model(entries@[j].1) == es[i + j].1,
                merge_entries(bs0, es) == merge_entries(json_model(*base)->Object_0, es.subrange(i as int, n as int)),
                json_model(extra) == Json::Object(es),
            decreases entries.len(),
        {
            let ghost cur = json_model(*base)->Object_0;
            let ghost rest = es.subrange(i as int, n as int);
            assert(rest[0] == es[i as int]);
            assert(rest.subrange(1, rest.len() as int) =~= es.subrange(i + 1, n as int));
            let (k, v) = entries.remove(0);
            assert(json_model(v) == es[i as int].1);
            assert(decreases_to!(json_model(extra) => json_model(v))) by {
                let e = es[i as int];
                assert(decreases_to!(json_model(extra) => json_model(extra)->Object_0));
                assert(decreases_to!(es => e));
                assert(decreases_to!(e => e.1));
            }
            proof {
                lemma_key_index(cur, k@);
            }
            match json_get(base, k.as_str()) {
                Some(existing) => {
                    let mut ex = existing;
                    merge_json(&mut ex, v);
                    json_insert(base, k, ex);
                },
                None => {
                    json_insert(base, k, v);
                },
            }
            i = i + 1;
            assert forall|j: int| 0 <= j < entries@.len() implies
                (#[trigger] entries@[j]).0@ == es[i + j].0 && json_model(entries@[j].1) == es[i + j].1 by {}
        }
        assert(es.subrange(n as int, n as int).len() == 0);
    } else {
        *base = extra;
    }
}

} // verus!
