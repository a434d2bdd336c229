//! JSON values as `serde_json` holds them, and their mathematical value.

use vstd::prelude::*;
use crate::text::{chars_lt, lex_lt, owned, str_chars, str_eq};

verus! {

/// A JSON value. An object keeps its members in the order given; the
/// objects that `serde_json` produces are sorted by key, each key once.
#[derive(Debug)]
pub enum JsonValue {
    Null,
    Bool(bool),
    /// A number, as written.
    Number(String),
    Str(String),
    Array(Vec<JsonValue>),
    Object(Vec<(String, JsonValue)>),
}

/// The mathematical value of a `JsonValue`.
pub enum JV {
    Null,
    Bool(bool),
    Number(Seq<char>),
    Str(Seq<char>),
    Array(Seq<JV>),
    Object(Seq<(Seq<char>, JV)>),
}

/// The value of a JSON value.
pub open spec fn jv(v: JsonValue) -> JV
    decreases v, 0nat,
{
    match v {
        JsonValue::Null => JV::Null,
        JsonValue::Bool(b) => JV::Bool(b),
        JsonValue::Number(n) => JV::Number(n@),
        JsonValue::Str(s) => JV::Str(s@),
        JsonValue::Array(items) => JV::Array(jv_items(items@, items@.len())),
        JsonValue::Object(ms) => JV::Object(jv_members(ms@, ms@.len())),
    }
}

/// The values of the first `n` items.
pub open spec fn jv_items(s: Seq<JsonValue>, n: nat) -> Seq<JV>
    decreases s, n,
{
    if n == 0 || n > s.len() {
        Seq::empty()
    } else {
        jv_items(s, (n - 1) as nat).push(jv(s[n - 1]))
    }
}

/// The values of the first `n` members.
pub open spec fn jv_members(s: Seq<(String, JsonValue)>, n: nat) -> Seq<(Seq<char>, JV)>
    decreases s, n,
{
    if n == 0 || n > s.len() {
        Seq::empty()
    } else {
        jv_members(s, (n - 1) as nat).push((s[n - 1].0@, jv(s[n - 1].1)))
    }
}

/// The values of the first `n` items, one by one.
pub proof fn lemma_items_index(s: Seq<JsonValue>, n: nat)
    requires
        n <= s.len(),
    ensures
        jv_items(s, n).len() == n,
        forall|j: int| 0 <= j < n ==> #[trigger] jv_items(s, n)[j] == jv(s[j]),
    decreases n,
{
    if n > 0 {
        lemma_items_index(s, (n - 1) as nat);
    }
}

/// The values of the first `n` members, one by one.
pub proof fn lemma_members_index(s: Seq<(String, JsonValue)>, n: nat)
    requires
        n <= s.len(),
    ensures
        jv_members(s, n).len() == n,
        forall|j: int| 0 <= j < n ==> #[trigger] jv_members(s, n)[j] == (s[j].0@, jv(s[j].1)),
    decreases n,
{
    if n > 0 {
        lemma_members_index(s, (n - 1) as nat);
    }
}

/// Adding a member at the end leaves the values of the earlier ones.
pub proof fn lemma_members_push(s: Seq<(String, JsonValue)>, m: (String, JsonValue), n: nat)
    requires
        n <= s.len(),
    ensures
        jv_members(s.push(m), n) == jv_members(s, n),
    decreases n,
{
    if n > 0 {
        lemma_members_push(s, m, (n - 1) as nat);
    }
}

/// The values of all members after one is added at the end.
pub proof fn lemma_members_pushed(s: Seq<(String, JsonValue)>, m: (String, JsonValue))
    ensures
        jv_members(s.push(m), s.len() + 1) == jv_members(s, s.len()).push((m.0@, jv(m.1))),
{
    lemma_members_push(s, m, s.len());
    assert(s.push(m)[s.len() as int] == m);
}


/// Adding an item at the end leaves the values of the earlier ones.
pub proof fn lemma_items_pushed(s: Seq<JsonValue>, x: JsonValue)
    ensures
        jv_items(s.push(x), s.len() + 1) == jv_items(s, s.len()).push(jv(x)),
{
    lemma_items_index(s, s.len());
    lemma_items_index(s.push(x), s.len() + 1);
    assert(jv_items(s.push(x), s.len() + 1) =~= jv_items(s, s.len()).push(jv(x)));
}

/// A copy of a JSON value.
pub fn copy_json(v: &JsonValue) -> (r: JsonValue)
    ensures
        jv(r) == jv(*v),
    decreases v,
{
    match v {
        JsonValue::Null => JsonValue::Null,
        JsonValue::Bool(b) => JsonValue::Bool(*b),
        JsonValue::Number(n) => JsonValue::Number(owned(n.as_str())),
        JsonValue::Str(s) => JsonValue::Str(owned(s.as_str())),
        JsonValue::Array(items) => {
            let mut out: Vec<JsonValue> = Vec::new();
            let mut j: usize = 0;
            while j < items.len()
                invariant
                    j <= items@.len(),
                    out@.len() == j,
                    jv_items(out@, j as nat) == jv_items(items@, j as nat),
                    *v is Array,
                    v->Array_0 == *items,
                decreases items.len() - j,
            {
                proof {
                    assert(decreases_to!(*v => v->Array_0));
                    assert(decreases_to!(v->Array_0 => (v->Array_0)@));
                    assert(decreases_to!(*v => items@[j as int]));
                }
                let c = copy_json(&items[j]);
                let ghost before = out@;
                out.push(c);
                proof {
                    lemma_items_pushed(before, c);
                    lemma_items_index(items@, (j + 1) as nat);
                    lemma_items_index(items@, j as nat);
                    assert(jv_items(items@, (j + 1) as nat) =~= jv_items(items@, j as nat).push(
                        jv(items@[j as int]),
                    ));
                }
                j += 1;
            }
            JsonValue::Array(out)
        },
        JsonValue::Object(ms) => {
            let mut out: Vec<(String, JsonValue)> = Vec::new();
            let mut j: usize = 0;
            while j < ms.len()
                invariant
                    j <= ms@.len(),
                    out@.len() == j,
                    jv_members(out@, j as nat) == jv_members(ms@, j as nat),
                    *v is Object,
                    v->Object_0 == *ms,
                decreases ms.len() - j,
            {
                proof {
                    assert(decreases_to!(*v => v->Object_0));
                    assert(decreases_to!(v->Object_0 => (v->Object_0)@));
                    assert(decreases_to!(*v => ms@[j as int]));
                    assert(decreases_to!(*v => ms@[j as int].1));
                }
                let c = copy_json(&ms[j].1);
                let k = owned(ms[j].0.as_str());
                let ghost before = out@;
                out.push((k, c));
                proof {
                    lemma_members_pushed(before, (k, c));
                    lemma_members_index(ms@, (j + 1) as nat);
                    lemma_members_index(ms@, j as nat);
                    assert(jv_members(ms@, (j + 1) as nat) =~= jv_members(ms@, j as nat).push(
                        (ms@[j as int].0@, jv(ms@[j as int].1)),
                    ));
                }
                j += 1;
            }
            JsonValue::Object(out)
        },
    }
}

/// The values of the first `i + 1` members, from those of the first `i`.
pub proof fn lemma_members_step(s: Seq<(String, JsonValue)>, i: nat)
    requires
        i < s.len(),
    ensures
        jv_members(s, i + 1) == jv_members(s, i).push((s[i as int].0@, jv(s[i as int].1))),
        jv_members(s, i + 1).drop_last() == jv_members(s, i),
        jv_members(s, i + 1).last() == (s[i as int].0@, jv(s[i as int].1)),
{
    assert(jv_members(s, i + 1).drop_last() =~= jv_members(s, i));
}


/// `serde_json`'s `Map::insert` on members sorted by key: the value under
/// `k` is replaced where it stands, or the member goes before the first
/// greater key (at the end when there is none).
pub open spec fn jinsert(ms: Seq<(Seq<char>, JV)>, k: Seq<char>, v: JV) -> Seq<(Seq<char>, JV)>
    decreases ms.len(),
{
    if ms.len() == 0 {
        seq![(k, v)]
    } else if ms[0].0 == k {
        seq![(k, v)] + ms.skip(1)
    } else if lex_lt(k, ms[0].0) {
        seq![(k, v)] + ms
    } else {
        seq![ms[0]] + jinsert(ms.skip(1), k, v)
    }
}

/// Inserts a member into an object kept sorted by key.
pub fn object_insert(ms: &mut Vec<(String, JsonValue)>, k: String, v: JsonValue)
    ensures
        jv_members(final(ms)@, final(ms)@.len()) == jinsert(
            jv_members(old(ms)@, old(ms)@.len()),
            k@,
            jv(v),
        ),
{
    let ghost s0 = ms@;
    let ghost j0 = jv_members(s0, s0.len());
    proof {
        lemma_members_index(s0, s0.len());
    }
    let kv = str_chars(k.as_str());
    let n = ms.len();
    let mut i: usize = 0;
    let mut found = false;
    let mut before = false;
    assert(j0.skip(0) =~= j0);
    while i < n && !found && !before
        invariant
            n == s0.len(),
            ms@ == s0,
            kv@ == k@,
            i <= n,
            j0 == jv_members(s0, s0.len()),
            j0.len() == n,
            forall|j: int| 0 <= j < n ==> #[trigger] j0[j] == (s0[j].0@, jv(s0[j].1)),
            jinsert(j0, k@, jv(v)) == j0.take(i as int) + jinsert(j0.skip(i as int), k@, jv(v)),
            found ==> i < n && j0[i as int].0 == k@,
            before ==> i < n && j0[i as int].0 != k@ && lex_lt(k@, j0[i as int].0),
        decreases n - i, (if found || before { 0int } else { 1int }),
    {
        let cur = str_chars(ms[i].0.as_str());
        if str_eq(ms[i].0.as_str(), k.as_str()) {
            found = true;
        } else if chars_lt(&kv, &cur) {
            before = true;
        } else {
            proof {
                let t = j0.skip(i as int);
                assert(t[0] == j0[i as int]);
                assert(t.skip(1) =~= j0.skip(i + 1));
                assert(j0.take(i as int) + seq![j0[i as int]] =~= j0.take(i + 1));
                assert(jinsert(j0, k@, jv(v)) =~= j0.take(i + 1) + jinsert(j0.skip(i + 1), k@, jv(v)));
            }
            i += 1;
        }
    }
    let ghost nm = (k@, jv(v));
    if found {
        ms.set(i, (k, v));
        proof {
            let t = j0.skip(i as int);
            assert(t[0] == j0[i as int]);
            assert(t.skip(1) =~= j0.skip(i + 1));
            lemma_members_index(ms@, ms@.len());
            assert(jv_members(ms@, ms@.len()) =~= j0.take(i as int) + (seq![nm] + j0.skip(i + 1)));
        }
    } else {
        ms.insert(i, (k, v));
        proof {
            lemma_members_index(ms@, ms@.len());
            if before {
                let t = j0.skip(i as int);
                assert(t[0] == j0[i as int]);
                assert(jv_members(ms@, ms@.len()) =~= j0.take(i as int) + (seq![nm] + j0.skip(i as int)));
            } else {
                assert(j0.skip(i as int).len() == 0);
                assert(jv_members(ms@, ms@.len()) =~= j0.take(i as int) + seq![nm]);
            }
        }
    }
}

} // verus!

verus! {

/// The value of the first member named `k`, if any (serde_json's `get` on
/// an object, whose keys occur once).
pub open spec fn jget(ms: Seq<(Seq<char>, JV)>, k: Seq<char>) -> Option<JV>
    decreases ms.len(),
{
    if ms.len() == 0 {
        None
    } else if ms[0].0 == k {
        Some(ms[0].1)
    } else {
        jget(ms.skip(1), k)
    }
}

/// The member named `k` of an object's members, if any.
pub fn object_get<'a>(ms: &'a Vec<(String, JsonValue)>, k: &str) -> (r: Option<&'a JsonValue>)
    ensures
        match r {
            Some(v) => jget(jv_members(ms@, ms@.len()), k@) == Some(jv(*v)),
            None => jget(jv_members(ms@, ms@.len()), k@) is None,
        },
{
    let ghost j0 = jv_members(ms@, ms@.len());
    proof {
        lemma_members_index(ms@, ms@.len());
    }
    let mut i: usize = 0;
    assert(j0.skip(0) =~= j0);
    while i < ms.len()
        invariant
            i <= ms@.len(),
            j0 == jv_members(ms@, ms@.len()),
            j0.len() == ms@.len(),
            forall|j: int| 0 <= j < ms@.len() ==> #[trigger] j0[j] == (ms@[j].0@, jv(ms@[j].1)),
            jget(j0, k@) == jget(j0.skip(i as int), k@),
        decreases ms.len() - i,
    {
        let ghost t = j0.skip(i as int);
        assert(t[0] == j0[i as int]);
        if str_eq(ms[i].0.as_str(), k) {
            return Some(&ms[i].1);
        }
        assert(t.skip(1) =~= j0.skip(i + 1));
        i += 1;
    }
    None
}

} // verus!

verus! {

/// The member `k` of an object (`serde_json`'s `Value::get` with a key):
/// nothing for anything but an object.
pub open spec fn jmember(v: JV, k: Seq<char>) -> Option<JV> {
    match v {
        JV::Object(ms) => jget(ms, k),
        _ => None,
    }
}

/// The member `k` of a value, if it is an object that has one.
pub fn member<'a>(v: &'a JsonValue, k: &str) -> (r: Option<&'a JsonValue>)
    ensures
        match r {
            Some(x) => jmember(jv(*v), k@) == Some(jv(*x)),
            None => jmember(jv(*v), k@) is None,
        },
{
    match v {
        JsonValue::Object(ms) => object_get(ms, k),
        _ => None,
    }
}

/// The members of a value that is an object.
pub fn as_object(v: &JsonValue) -> (r: Option<&Vec<(String, JsonValue)>>)
    ensures
        match r {
            Some(ms) => jv(*v) == JV::Object(jv_members(ms@, ms@.len())),
            None => !(jv(*v) is Object),
        },
{
    match v {
        JsonValue::Object(ms) => Some(ms),
        _ => None,
    }
}

/// The text of a value that is a string.
pub fn as_str(v: &JsonValue) -> (r: Option<&String>)
    ensures
        match r {
            Some(s) => jv(*v) == JV::Str(s@),
            None => !(jv(*v) is Str),
        },
{
    match v {
        JsonValue::Str(s) => Some(s),
        _ => None,
    }
}

} // verus!

verus! {

/// What `serde_json::from_str::<serde_json::Value>` makes of a text, as the
/// library's value (`None` where the text is not JSON): a function of the
/// text alone.
pub uninterp spec fn json_parse(text: Seq<char>) -> Option<JV>;

/// What `serde_json::to_string_pretty` writes for a value (`None` where it
/// fails): a function of the value alone.
pub uninterp spec fn json_pretty(v: JV) -> Option<Seq<char>>;

/// A `serde_json` value as the library's, variant for variant: numbers as
/// `serde_json` writes them, object members in `serde_json`'s order. It is
/// the conversion step of `parse_json`, and nothing is stated of it alone.
#[verifier::external_body]
fn from_serde(v: &serde_json::Value) -> (r: JsonValue) {
    match v {
        serde_json::Value::Null => JsonValue::Null,
        serde_json::Value::Bool(b) => JsonValue::Bool(*b),
        serde_json::Value::Number(n) => JsonValue::Number(n.to_string()),
        serde_json::Value::String(s) => JsonValue::Str(s.clone()),
        serde_json::Value::Array(a) => JsonValue::Array(a.iter().map(from_serde).collect()),
        serde_json::Value::Object(m) => JsonValue::Object(m.iter().map(|(k, x)| (k.clone(), from_serde(x))).collect()),
    }
}

/// The library's value as a `serde_json` value, variant for variant (a
/// number is read back as `serde_json` reads a number's text). It is the
/// conversion step of `pretty_json`, and nothing is stated of it alone.
#[verifier::external_body]
fn to_serde(v: &JsonValue) -> (r: serde_json::Value) {
    match v {
        JsonValue::Null => serde_json::Value::Null,
        JsonValue::Bool(b) => serde_json::Value::Bool(*b),
        JsonValue::Number(n) => n.parse::<serde_json::Number>().map(serde_json::Value::Number).unwrap_or(serde_json::Value::Null),
        JsonValue::Str(s) => serde_json::Value::String(s.clone()),
        JsonValue::Array(a) => serde_json::Value::Array(a.iter().map(to_serde).collect()),
        JsonValue::Object(m) => serde_json::Value::Object(m.iter().map(|(k, x)| (k.clone(), to_serde(x))).collect()),
    }
}

/// `serde_json::from_str::<serde_json::Value>(text)`, as the library's
/// value: `None` exactly where serde_json rejects the text. The value is
/// named, as a function of the text; nothing more is stated.
#[verifier::external_body]
pub fn parse_json(text: &str) -> (r: Option<JsonValue>)
    ensures
        match r {
            Some(v) => json_parse(text@) == Some(jv(v)),
            None => json_parse(text@) is None,
        },
{
    match serde_json::from_str::<serde_json::Value>(text) {
        Ok(v) => Some(from_serde(&v)),
        Err(_) => None,
    }
}

/// `serde_json::to_string_pretty` of the value. The text is named, as a
/// function of the value; nothing more is stated.
#[verifier::external_body]
pub fn pretty_json(v: &JsonValue) -> (r: Option<String>)
    ensures
        match r {
            Some(t) => json_pretty(jv(*v)) == Some(t@),
            None => json_pretty(jv(*v)) is None,
        },
{
    serde_json::to_string_pretty(&to_serde(v)).ok()
}

} // verus!
