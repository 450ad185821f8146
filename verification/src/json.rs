//! A JSON document model and its canonical (compact, key-sorted) text.
//!
//! `JsonValue` holds a parsed JSON document as plain values.  Numbers are
//! kept as the text that a JSON serializer writes for them.  Objects are
//! association lists read as maps: where a key occurs more than once its
//! last entry counts, and the canonical text lists the keys in increasing
//! order whatever order the entries were held in.
use vstd::prelude::*;
use crate::text::{lemma_str_lt_irrefl, lemma_str_lt_total, lemma_str_lt_trans, push_char, str_eq, str_less, str_lt};

verus! {

/// A JSON value.
#[derive(Debug)]
pub enum JsonValue {
    Null,
    Bool(bool),
    /// A number, by its JSON text.
    Number(String),
    String(String),
    Array(Vec<JsonValue>),
    /// Entries of an object; the last entry of a key counts.
    Object(Vec<(String, JsonValue)>),
}

// ---------------------------------------------------------------------
// Sorted association lists
// ---------------------------------------------------------------------

/// Keys strictly increase along `es`.
pub open spec fn keys_sorted<V>(es: Seq<(String, V)>) -> bool {
    forall|i: int, j: int| 0 <= i < j < es.len() ==> str_lt(#[trigger] es[i].0@, #[trigger] es[j].0@)
}

/// Number of leading entries whose key sorts before `k`.
pub open spec fn lower_bound<V>(es: Seq<(String, V)>, k: Seq<char>) -> nat
    decreases es.len(),
{
    if es.len() == 0 {
        0
    } else if str_lt(es[0].0@, k) {
        1 + lower_bound(es.drop_first(), k)
    } else {
        0
    }
}

/// The entries after `BTreeMap::insert(k, v)`: the value of an existing key is
/// replaced in place, otherwise the entry goes where its key sorts.
pub open spec fn assoc_inserted<V>(es: Seq<(String, V)>, k: String, v: V) -> Seq<(String, V)> {
    let j = lower_bound(es, k@) as int;
    if j < es.len() && es[j].0@ == k@ {
        es.update(j, (k, v))
    } else {
        es.insert(j, (k, v))
    }
}

/// The value stored under key `k`, if any.
pub open spec fn assoc_get<V>(es: Seq<(String, V)>, k: Seq<char>) -> Option<V>
    decreases es.len(),
{
    if es.len() == 0 {
        None
    } else if es.last().0@ == k {
        Some(es.last().1)
    } else {
        assoc_get(es.drop_last(), k)
    }
}

proof fn lemma_lower_bound<V>(es: Seq<(String, V)>, k: Seq<char>)
    requires
        keys_sorted(es),
    ensures
        lower_bound(es, k) <= es.len(),
        forall|i: int| 0 <= i < lower_bound(es, k) ==> str_lt(#[trigger] es[i].0@, k),
        forall|i: int| lower_bound(es, k) <= i < es.len() ==> !str_lt(#[trigger] es[i].0@, k),
    decreases es.len(),
{
    if es.len() > 0 {
        let t = es.drop_first();
        assert(keys_sorted(t)) by {
            assert forall|i: int, j: int| 0 <= i < j < t.len() implies str_lt(
                #[trigger] t[i].0@,
                #[trigger] t[j].0@,
            ) by {
                assert(t[i] == es[i + 1] && t[j] == es[j + 1]);
            }
        }
        lemma_lower_bound(t, k);
        if str_lt(es[0].0@, k) {
            assert forall|i: int| 0 <= i < lower_bound(es, k) implies str_lt(#[trigger] es[i].0@, k) by {
                if i > 0 {
                    assert(es[i] == t[i - 1]);
                }
            }
            assert forall|i: int| lower_bound(es, k) <= i < es.len() implies !str_lt(
                #[trigger] es[i].0@,
                k,
            ) by {
                assert(es[i] == t[i - 1]);
            }
        } else {
            assert forall|i: int| 0 <= i < es.len() implies !str_lt(#[trigger] es[i].0@, k) by {
                if i > 0 && str_lt(es[i].0@, k) {
                    lemma_str_lt_trans(es[0].0@, es[i].0@, k);
                }
            }
        }
    }
}

/// Index of the first entry whose key does not sort before `k`.
fn find_slot<V>(es: &Vec<(String, V)>, k: &str) -> (j: usize)
    requires
        keys_sorted(es@),
    ensures
        j == lower_bound(es@, k@),
{
    proof {
        lemma_lower_bound(es@, k@);
    }
    let mut j: usize = 0;
    while j < es.len() && str_less(es[j].0.as_str(), k)
        invariant
            j <= lower_bound(es@, k@),
            lower_bound(es@, k@) <= es@.len(),
            forall|i: int| 0 <= i < lower_bound(es@, k@) ==> str_lt(#[trigger] es@[i].0@, k@),
            forall|i: int| lower_bound(es@, k@) <= i < es@.len() ==> !str_lt(#[trigger] es@[i].0@, k@),
        decreases es@.len() - j,
    {
        j = j + 1;
    }
    j
}

/// `BTreeMap::insert` on a sorted association list.
pub fn assoc_insert<V>(es: &mut Vec<(String, V)>, k: String, v: V)
    requires
        keys_sorted(old(es)@),
    ensures
        final(es)@ == assoc_inserted(old(es)@, k, v),
        keys_sorted(final(es)@),
{
    let ghost old_es = es@;
    proof {
        lemma_lower_bound(es@, k@);
    }
    let j = find_slot(es, k.as_str());
    if j < es.len() && str_eq(es[j].0.as_str(), k.as_str()) {
        es.set(j, (k, v));
        assert(keys_sorted(es@)) by {
            assert forall|a: int, b: int| 0 <= a < b < es@.len() implies str_lt(
                #[trigger] es@[a].0@,
                #[trigger] es@[b].0@,
            ) by {
                assert(es@[a].0@ == old_es[a].0@);
                assert(es@[b].0@ == old_es[b].0@);
            }
        }
    } else {
        es.insert(j, (k, v));
        assert(keys_sorted(es@)) by {
            assert forall|a: int, b: int| 0 <= a < b < es@.len() implies str_lt(
                #[trigger] es@[a].0@,
                #[trigger] es@[b].0@,
            ) by {
                let ka = es@[a].0@;
                let kb = es@[b].0@;
                if b < j {
                    assert(es@[a] == old_es[a] && es@[b] == old_es[b]);
                } else if a > j {
                    assert(es@[a] == old_es[a - 1] && es@[b] == old_es[b - 1]);
                } else if a == j {
                    assert(es@[b] == old_es[b - 1]);
                    lemma_str_lt_total(old_es[b - 1].0@, k@);
                    if b - 1 > j {
                        lemma_str_lt_total(old_es[j as int].0@, k@);
                        if old_es[j as int].0@ != k@ {
                            lemma_str_lt_trans(k@, old_es[j as int].0@, old_es[b - 1].0@);
                        }
                    }
                } else {
                    assert(es@[a] == old_es[a]);
                    if b == j {
                    } else {
                        assert(es@[b] == old_es[b - 1]);
                    }
                }
            }
        }
    }
}

// ---------------------------------------------------------------------
// Well-formedness
// ---------------------------------------------------------------------

/// Every object in the document has strictly increasing keys.
pub open spec fn json_wf(v: JsonValue) -> bool
    decreases v, 0int,
{
    match v {
        JsonValue::Array(a) => items_wf(a@, a@.len() as int),
        JsonValue::Object(m) => keys_sorted(m@) && entries_wf(m@, m@.len() as int),
        _ => true,
    }
}

/// The first `n` items are well-formed.
pub open spec fn items_wf(items: Seq<JsonValue>, n: int) -> bool
    decreases items, n,
{
    if n <= 0 || n > items.len() {
        n <= 0
    } else {
        items_wf(items, n - 1) && json_wf(items[n - 1])
    }
}

/// The values of the first `n` entries are well-formed.
pub open spec fn entries_wf(es: Seq<(String, JsonValue)>, n: int) -> bool
    decreases es, n,
{
    if n <= 0 || n > es.len() {
        n <= 0
    } else {
        entries_wf(es, n - 1) && json_wf(es[n - 1].1)
    }
}

// ---------------------------------------------------------------------
// JSON string literals
// ---------------------------------------------------------------------

/// Lower-case hexadecimal digit for `d < 16`.
pub open spec fn hex_digit(d: nat) -> char {
    if d < 10 {
        ((48 + d) as u32) as char
    } else {
        ((87 + d) as u32) as char
    }
}

/// How a JSON string literal writes one character.
pub open spec fn escape_char(c: char) -> Seq<char> {
    let u = c as u32;
    if c == '"' {
        seq!['\\', '"']
    } else if c == '\\' {
        seq!['\\', '\\']
    } else if u == 0x08 {
        seq!['\\', 'b']
    } else if u == 0x09 {
        seq!['\\', 't']
    } else if u == 0x0a {
        seq!['\\', 'n']
    } else if u == 0x0c {
        seq!['\\', 'f']
    } else if u == 0x0d {
        seq!['\\', 'r']
    } else if u < 0x20 {
        seq!['\\', 'u', '0', '0', hex_digit((u / 16) as nat), hex_digit((u % 16) as nat)]
    } else {
        seq![c]
    }
}

/// The escaped body of a JSON string literal.
pub open spec fn escape_chars(s: Seq<char>) -> Seq<char>
    decreases s.len(),
{
    if s.len() == 0 {
        Seq::empty()
    } else {
        escape_chars(s.drop_last()) + escape_char(s.last())
    }
}

/// The JSON string literal of `s`, quotes included.
pub open spec fn json_quote(s: Seq<char>) -> Seq<char> {
    seq!['"'] + escape_chars(s) + seq!['"']
}

/// `serde_json::to_string` on a string slice: the JSON string literal of `s`.
/// It escapes `"` and `\`, writes `\b \t \n \f \r` for those controls,
/// `\u00xx` (lower-case hex) for the other characters below U+0020, and
/// copies every other character.  Serializing a `&str` does not fail.
#[verifier::external_body]
pub(crate) fn json_string_literal(s: &str) -> (r: String)
    ensures
        r@ == json_quote(s@),
{
    match serde_json::to_string(s) {
        Ok(t) => t,
        Err(_) => String::new(),
    }
}

// ---------------------------------------------------------------------
// Canonical text
// ---------------------------------------------------------------------

/// Compact JSON text of `v` with object members sorted by key (of several
/// entries with one key, the last counts, as in a JSON map).
pub open spec fn canon(v: JsonValue) -> Seq<char>
    decreases v, 0int,
{
    match v {
        JsonValue::Null => "null"@,
        JsonValue::Bool(b) => if b {
            "true"@
        } else {
            "false"@
        },
        JsonValue::Number(t) => t@,
        JsonValue::String(s) => json_quote(s@),
        JsonValue::Array(a) => seq!['['] + canon_items(a@, a@.len() as int) + seq![']'],
        JsonValue::Object(m) => {
            let ord = key_order(m@, m@.len() as int);
            seq!['{'] + canon_sorted(m@, ord, ord.len() as int) + seq!['}']
        },
    }
}

/// The first `n` items, each in canonical text, joined by commas.
pub open spec fn canon_items(items: Seq<JsonValue>, n: int) -> Seq<char>
    decreases items, n,
{
    if n <= 0 || n > items.len() {
        Seq::empty()
    } else if n == 1 {
        canon(items[0])
    } else {
        canon_items(items, n - 1) + seq![','] + canon(items[n - 1])
    }
}

/// The keys of the first `n` entries, each with the index of its last
/// entry, as a map sorted by key.
pub open spec fn key_order(es: Seq<(String, JsonValue)>, n: int) -> Seq<(Seq<char>, int)>
    decreases n,
{
    if n <= 0 || n > es.len() {
        Seq::empty()
    } else {
        kv_inserted(key_order(es, n - 1), es[n - 1].0@, n - 1)
    }
}

/// The entries named by the first `n` members of `ord`, as `"key":value`,
/// joined by commas.
pub open spec fn canon_sorted(es: Seq<(String, JsonValue)>, ord: Seq<(Seq<char>, int)>, n: int) -> Seq<char>
    decreases es, n,
{
    if n <= 0 || n > ord.len() {
        Seq::empty()
    } else {
        let j = ord[n - 1].1;
        let item = json_quote(ord[n - 1].0) + seq![':'] + (if 0 <= j < es.len() {
            canon(es[j].1)
        } else {
            Seq::empty()
        });
        if n == 1 {
            item
        } else {
            canon_sorted(es, ord, n - 1) + seq![','] + item
        }
    }
}

/// Every value of a map of indices is below `bound`.
pub open spec fn indices_below(kvs: Seq<(Seq<char>, int)>, bound: int) -> bool {
    forall|t: int| 0 <= t < kvs.len() ==> 0 <= (#[trigger] kvs[t]).1 < bound
}

proof fn lemma_indices_inserted(kvs: Seq<(Seq<char>, int)>, k: Seq<char>, w: int, bound: int)
    requires
        indices_below(kvs, bound),
        0 <= w < bound,
    ensures
        indices_below(kv_inserted(kvs, k, w), bound),
{
    lemma_kv_lower_bound_le(kvs, k);
    let j = kv_lower_bound(kvs, k) as int;
    let m = kv_inserted(kvs, k, w);
    assert forall|t: int| 0 <= t < m.len() implies 0 <= (#[trigger] m[t]).1 < bound by {
        if j < kvs.len() && kvs[j].0 == k {
            if t != j {
                assert(m[t] == kvs[t]);
            }
        } else if t < j {
            assert(m[t] == kvs[t]);
        } else if t > j {
            assert(m[t] == kvs[t - 1]);
        }
    }
}

/// The index of a position, as an integer.
pub open spec fn index_int() -> spec_fn(usize) -> int {
    |x: usize| x as int
}

/// The sorted key order of the entries of an object.
pub fn key_order_of(m: &Vec<(String, JsonValue)>) -> (r: Vec<(String, usize)>)
    ensures
        kv_view(r@, index_int()) == key_order(m@, m@.len() as int),
        indices_below(key_order(m@, m@.len() as int), m@.len() as int),
{
    let mut ord: Vec<(String, usize)> = Vec::new();
    let n = m.len();
    assert(kv_view(ord@, index_int()) =~= key_order(m@, 0));
    for i in 0..n
        invariant
            n == m@.len(),
            keys_sorted(ord@),
            kv_view(ord@, index_int()) == key_order(m@, i as int),
            indices_below(key_order(m@, i as int), i as int),
    {
        proof {
            lemma_indices_inserted(key_order(m@, i as int), m@[i as int].0@, i as int, i + 1);
            assert forall|t: int| 0 <= t < key_order(m@, i as int).len() implies 0 <= (#[trigger] key_order(
                m@,
                i as int,
            )[t]).1 < i + 1 by {}
        }
        assoc_insert_kv::<usize, int>(&mut ord, m[i].0.clone(), i, Ghost(index_int()));
    }
    ord
}

/// Appends the canonical text of `v` to `out`.
pub fn write_canonical(v: &JsonValue, out: &mut String)
    ensures
        final(out)@ == old(out)@ + canon(*v),
    decreases v,
{
    match v {
        JsonValue::Null => out.append("null"),
        JsonValue::Bool(b) => if *b {
            out.append("true")
        } else {
            out.append("false")
        },
        JsonValue::Number(t) => out.append(t.as_str()),
        JsonValue::String(s) => {
            let q = json_string_literal(s.as_str());
            out.append(q.as_str());
        },
        JsonValue::Array(a) => {
            let ghost start = out@;
            push_char(out, '[');
            let n = a.len();
            for i in 0..n
                invariant
                    n == a@.len(),
                    *v == JsonValue::Array(*a),
                    out@ == start + seq!['['] + canon_items(a@, i as int),
            {
                if i > 0 {
                    push_char(out, ',');
                }
                proof {
                    assert(decreases_to!(*v => (*v)->Array_0));
                    assert(decreases_to!(*a => a@));
                    assert(decreases_to!(a@ => a@[i as int]));
                }
                write_canonical(&a[i], out);
            }
            push_char(out, ']');
        },
        JsonValue::Object(m) => {
            let ghost start = out@;
            let ord = key_order_of(m);
            let ghost ov = key_order(m@, m@.len() as int);
            push_char(out, '{');
            let n = ord.len();
            for t in 0..n
                invariant
                    n == ord@.len(),
                    *v == JsonValue::Object(*m),
                    kv_view(ord@, index_int()) == ov,
                    ov == key_order(m@, m@.len() as int),
                    indices_below(ov, m@.len() as int),
                    out@ == start + seq!['{'] + canon_sorted(m@, ov, t as int),
            {
                assert(ov[t as int] == (ord@[t as int].0@, ord@[t as int].1 as int));
                if t > 0 {
                    push_char(out, ',');
                }
                let q = json_string_literal(ord[t].0.as_str());
                out.append(q.as_str());
                push_char(out, ':');
                let j = ord[t].1;
                assert(0 <= ov[t as int].1 < m@.len());
                proof {
                    assert(decreases_to!(*v => (*v)->Object_0));
                    assert(decreases_to!(*m => m@));
                    assert(decreases_to!(m@ => m@[j as int]));
                    assert(decreases_to!(m@[j as int] => m@[j as int].1));
                }
                write_canonical(&m[j].1, out);
            }
            push_char(out, '}');
        },
    }
}

/// Deterministic JSON: compact, object members sorted by key.
pub fn canonical_json(v: &JsonValue) -> (r: String)
    ensures
        r@ == canon(*v),
{
    let mut r = String::new();
    write_canonical(v, &mut r);
    r
}


// ---------------------------------------------------------------------
// Association lists by key text
// ---------------------------------------------------------------------

/// The entries of `es` with keys by their text and values through `f`.
pub open spec fn kv_view<V, W>(es: Seq<(String, V)>, f: spec_fn(V) -> W) -> Seq<(Seq<char>, W)> {
    es.map_values(|e: (String, V)| (e.0@, f(e.1)))
}

/// Keys strictly increase along `kvs`.
pub open spec fn kv_sorted<W>(kvs: Seq<(Seq<char>, W)>) -> bool {
    forall|i: int, j: int| 0 <= i < j < kvs.len() ==> str_lt(#[trigger] kvs[i].0, #[trigger] kvs[j].0)
}

/// Number of leading entries whose key sorts before `k`.
pub open spec fn kv_lower_bound<W>(kvs: Seq<(Seq<char>, W)>, k: Seq<char>) -> nat
    decreases kvs.len(),
{
    if kvs.len() == 0 {
        0
    } else if str_lt(kvs[0].0, k) {
        1 + kv_lower_bound(kvs.drop_first(), k)
    } else {
        0
    }
}

/// `kvs` after a sorted-map insert of `k` with `w`.
pub open spec fn kv_inserted<W>(kvs: Seq<(Seq<char>, W)>, k: Seq<char>, w: W) -> Seq<(Seq<char>, W)> {
    let j = kv_lower_bound(kvs, k) as int;
    if j < kvs.len() && kvs[j].0 == k {
        kvs.update(j, (k, w))
    } else {
        kvs.insert(j, (k, w))
    }
}

/// The value of the last entry with key `k`, if any.
pub open spec fn kv_get<W>(kvs: Seq<(Seq<char>, W)>, k: Seq<char>) -> Option<W>
    decreases kvs.len(),
{
    if kvs.len() == 0 {
        None
    } else if kvs.last().0 == k {
        Some(kvs.last().1)
    } else {
        kv_get(kvs.drop_last(), k)
    }
}

proof fn lemma_lower_bound_le<V>(es: Seq<(String, V)>, k: Seq<char>)
    ensures
        lower_bound(es, k) <= es.len(),
    decreases es.len(),
{
    if es.len() > 0 {
        lemma_lower_bound_le(es.drop_first(), k);
    }
}

proof fn lemma_lower_bound_kv<V, W>(es: Seq<(String, V)>, f: spec_fn(V) -> W, k: Seq<char>)
    ensures
        lower_bound(es, k) == kv_lower_bound(kv_view(es, f), k),
    decreases es.len(),
{
    if es.len() > 0 {
        assert(kv_view(es.drop_first(), f) =~= kv_view(es, f).drop_first());
        lemma_lower_bound_kv(es.drop_first(), f, k);
    }
}

/// Inserting into a list and viewing it commute.
pub proof fn lemma_inserted_kv<V, W>(es: Seq<(String, V)>, k: String, v: V, f: spec_fn(V) -> W)
    ensures
        kv_view(assoc_inserted(es, k, v), f) == kv_inserted(kv_view(es, f), k@, f(v)),
{
    lemma_lower_bound_kv(es, f, k@);
    lemma_lower_bound_le(es, k@);
    let j = lower_bound(es, k@) as int;
    if j < es.len() && es[j].0@ == k@ {
        assert(kv_view(assoc_inserted(es, k, v), f) =~= kv_inserted(kv_view(es, f), k@, f(v)));
    } else {
        assert(kv_view(assoc_inserted(es, k, v), f) =~= kv_inserted(kv_view(es, f), k@, f(v)));
    }
}

/// In a sorted map, looking up the key of an entry finds that entry.
pub proof fn lemma_kv_get_at<W>(kvs: Seq<(Seq<char>, W)>, i: int)
    requires
        kv_sorted(kvs),
        0 <= i < kvs.len(),
    ensures
        kv_get(kvs, kvs[i].0) == Some(kvs[i].1),
    decreases kvs.len(),
{
    if i < kvs.len() - 1 {
        assert(str_lt(kvs[i].0, kvs[kvs.len() - 1].0));
        lemma_str_lt_irrefl(kvs[i].0);
        let d = kvs.drop_last();
        assert(kv_sorted(d)) by {
            assert forall|a: int, b: int| 0 <= a < b < d.len() implies str_lt(#[trigger] d[a].0, #[trigger] d[b].0) by {
                assert(d[a] == kvs[a] && d[b] == kvs[b]);
            }
        }
        assert(d[i] == kvs[i]);
        lemma_kv_get_at(d, i);
    }
}

/// A key that no entry holds is not found.
pub proof fn lemma_kv_get_absent<W>(kvs: Seq<(Seq<char>, W)>, k: Seq<char>)
    requires
        forall|i: int| 0 <= i < kvs.len() ==> (#[trigger] kvs[i]).0 != k,
    ensures
        kv_get(kvs, k) is None,
    decreases kvs.len(),
{
    if kvs.len() > 0 {
        let d = kvs.drop_last();
        assert forall|i: int| 0 <= i < d.len() implies (#[trigger] d[i]).0 != k by {
            assert(d[i] == kvs[i]);
        }
        assert(kvs[kvs.len() - 1].0 != k);
        lemma_kv_get_absent(d, k);
    }
}

/// Looking a key up in a list and in its view agree.
pub proof fn lemma_assoc_get_kv<V, W>(es: Seq<(String, V)>, f: spec_fn(V) -> W, k: Seq<char>)
    ensures
        kv_get(kv_view(es, f), k) == (match assoc_get(es, k) {
            Some(v) => Some(f(v)),
            None => None,
        }),
    decreases es.len(),
{
    if es.len() > 0 {
        assert(kv_view(es.drop_last(), f) =~= kv_view(es, f).drop_last());
        lemma_assoc_get_kv(es.drop_last(), f, k);
    }
}

/// `kv_lower_bound` is a position in the map.
pub proof fn lemma_kv_lower_bound_le<W>(kvs: Seq<(Seq<char>, W)>, k: Seq<char>)
    ensures
        kv_lower_bound(kvs, k) <= kvs.len(),
    decreases kvs.len(),
{
    if kvs.len() > 0 {
        lemma_kv_lower_bound_le(kvs.drop_first(), k);
    }
}

/// A sorted map after an insert of `k`: looking up `k` gives the inserted
/// value, and every other key gives what it gave before.
pub proof fn lemma_kv_insert_get<W>(kvs: Seq<(Seq<char>, W)>, k: Seq<char>, w: W, other: Seq<char>)
    requires
        kv_sorted(kvs),
        kv_sorted(kv_inserted(kvs, k, w)),
    ensures
        kv_get(kv_inserted(kvs, k, w), k) == Some(w),
        other != k ==> kv_get(kv_inserted(kvs, k, w), other) == kv_get(kvs, other),
{
    let m = kv_inserted(kvs, k, w);
    let j = kv_lower_bound(kvs, k) as int;
    lemma_kv_lower_bound_le(kvs, k);
    let upd = j < kvs.len() && kvs[j].0 == k;
    assert(m[j] == (k, w));
    lemma_kv_get_at(m, j);
    if other != k {
        if exists|i: int| 0 <= i < kvs.len() && (#[trigger] kvs[i]).0 == other {
            let i = choose|i: int| 0 <= i < kvs.len() && (#[trigger] kvs[i]).0 == other;
            lemma_kv_get_at(kvs, i);
            if upd {
                assert(m[i] == kvs[i]);
                lemma_kv_get_at(m, i);
            } else if i < j {
                assert(m[i] == kvs[i]);
                lemma_kv_get_at(m, i);
            } else {
                assert(m[i + 1] == kvs[i]);
                lemma_kv_get_at(m, i + 1);
            }
        } else {
            lemma_kv_get_absent(kvs, other);
            assert forall|i: int| 0 <= i < m.len() implies (#[trigger] m[i]).0 != other by {
                if upd {
                    if i != j {
                        assert(m[i] == kvs[i]);
                    }
                } else if i < j {
                    assert(m[i] == kvs[i]);
                } else if i > j {
                    assert(m[i] == kvs[i - 1]);
                }
            }
            lemma_kv_get_absent(m, other);
        }
    }
}

/// Where `k` goes in a sorted map: every key before `kv_lower_bound` sorts
/// before `k`, no key from there on does.
pub proof fn lemma_kv_lower_bound<W>(kvs: Seq<(Seq<char>, W)>, k: Seq<char>)
    requires
        kv_sorted(kvs),
    ensures
        kv_lower_bound(kvs, k) <= kvs.len(),
        forall|i: int| 0 <= i < kv_lower_bound(kvs, k) ==> str_lt(#[trigger] kvs[i].0, k),
        forall|i: int| kv_lower_bound(kvs, k) <= i < kvs.len() ==> !str_lt(#[trigger] kvs[i].0, k),
    decreases kvs.len(),
{
    if kvs.len() > 0 {
        let t = kvs.drop_first();
        assert(kv_sorted(t)) by {
            assert forall|i: int, j: int| 0 <= i < j < t.len() implies str_lt(#[trigger] t[i].0, #[trigger] t[j].0) by {
                assert(t[i] == kvs[i + 1] && t[j] == kvs[j + 1]);
            }
        }
        lemma_kv_lower_bound(t, k);
        if str_lt(kvs[0].0, k) {
            assert forall|i: int| 0 <= i < kv_lower_bound(kvs, k) implies str_lt(#[trigger] kvs[i].0, k) by {
                if i > 0 {
                    assert(kvs[i] == t[i - 1]);
                }
            }
            assert forall|i: int| kv_lower_bound(kvs, k) <= i < kvs.len() implies !str_lt(#[trigger] kvs[i].0, k) by {
                assert(kvs[i] == t[i - 1]);
            }
        } else {
            assert forall|i: int| 0 <= i < kvs.len() implies !str_lt(#[trigger] kvs[i].0, k) by {
                if i > 0 && str_lt(kvs[i].0, k) {
                    lemma_str_lt_trans(kvs[0].0, kvs[i].0, k);
                }
            }
        }
    }
}

/// A sorted-map insert keeps the map sorted.
pub proof fn lemma_kv_inserted_sorted<W>(kvs: Seq<(Seq<char>, W)>, k: Seq<char>, w: W)
    requires
        kv_sorted(kvs),
    ensures
        kv_sorted(kv_inserted(kvs, k, w)),
{
    lemma_kv_lower_bound(kvs, k);
    let j = kv_lower_bound(kvs, k) as int;
    let m = kv_inserted(kvs, k, w);
    if j < kvs.len() && kvs[j].0 == k {
        assert forall|a: int, b: int| 0 <= a < b < m.len() implies str_lt(#[trigger] m[a].0, #[trigger] m[b].0) by {
            assert(m[a].0 == kvs[a].0);
            assert(m[b].0 == kvs[b].0);
        }
    } else {
        assert forall|a: int, b: int| 0 <= a < b < m.len() implies str_lt(#[trigger] m[a].0, #[trigger] m[b].0) by {
            if b < j {
                assert(m[a] == kvs[a] && m[b] == kvs[b]);
            } else if a > j {
                assert(m[a] == kvs[a - 1] && m[b] == kvs[b - 1]);
            } else if a == j {
                assert(m[b] == kvs[b - 1]);
                lemma_str_lt_total(kvs[b - 1].0, k);
                if b - 1 > j {
                    lemma_str_lt_total(kvs[j].0, k);
                    if kvs[j].0 != k {
                        lemma_str_lt_trans(k, kvs[j].0, kvs[b - 1].0);
                    }
                }
            } else {
                assert(m[a] == kvs[a]);
                if b != j {
                    assert(m[b] == kvs[b - 1]);
                }
            }
        }
    }
}

/// A key that a lookup finds is held by some entry.
pub proof fn lemma_kv_get_some<W>(kvs: Seq<(Seq<char>, W)>, k: Seq<char>)
    requires
        kv_get(kvs, k) is Some,
    ensures
        exists|i: int| 0 <= i < kvs.len() && #[trigger] kvs[i] == (k, kv_get(kvs, k)->0),
    decreases kvs.len(),
{
    if kvs.last().0 == k {
        assert(kvs[kvs.len() - 1] == (k, kv_get(kvs, k)->0));
    } else {
        let d = kvs.drop_last();
        lemma_kv_get_some(d, k);
        let i = choose|i: int| 0 <= i < d.len() && #[trigger] d[i] == (k, kv_get(d, k)->0);
        assert(kvs[i] == d[i]);
    }
}

/// Two sorted maps that agree on every lookup are the same map.
pub proof fn lemma_kv_sorted_unique<W>(a: Seq<(Seq<char>, W)>, b: Seq<(Seq<char>, W)>)
    requires
        kv_sorted(a),
        kv_sorted(b),
        forall|k: Seq<char>| #[trigger] kv_get(a, k) == kv_get(b, k),
    ensures
        a == b,
    decreases a.len() + b.len(),
{
    if a.len() == 0 || b.len() == 0 {
        if a.len() > 0 {
            lemma_kv_get_at(a, 0);
            assert(kv_get(b, a[0].0) is None);
        } else if b.len() > 0 {
            lemma_kv_get_at(b, 0);
            assert(kv_get(a, b[0].0) is None);
        }
        assert(a =~= b);
    } else {
        let x = a.last();
        let y = b.last();
        lemma_kv_get_at(a, a.len() - 1);
        lemma_kv_get_at(b, b.len() - 1);
        assert(kv_get(b, x.0) == Some(x.1));
        assert(kv_get(a, y.0) == Some(y.1));
        lemma_kv_get_some(b, x.0);
        lemma_kv_get_some(a, y.0);
        let jb = choose|i: int| 0 <= i < b.len() && #[trigger] b[i] == (x.0, kv_get(b, x.0)->0);
        let ja = choose|i: int| 0 <= i < a.len() && #[trigger] a[i] == (y.0, kv_get(a, y.0)->0);
        if x.0 != y.0 {
            assert(jb < b.len() - 1);
            assert(ja < a.len() - 1);
            assert(str_lt(b[jb].0, b[b.len() - 1].0));
            assert(str_lt(a[ja].0, a[a.len() - 1].0));
            lemma_str_lt_trans(x.0, y.0, x.0);
            lemma_str_lt_irrefl(x.0);
        }
        assert(x == y);
        let da = a.drop_last();
        let db = b.drop_last();
        assert(kv_sorted(da)) by {
            assert forall|i: int, j: int| 0 <= i < j < da.len() implies str_lt(#[trigger] da[i].0, #[trigger] da[j].0) by {
                assert(da[i] == a[i] && da[j] == a[j]);
            }
        }
        assert(kv_sorted(db)) by {
            assert forall|i: int, j: int| 0 <= i < j < db.len() implies str_lt(#[trigger] db[i].0, #[trigger] db[j].0) by {
                assert(db[i] == b[i] && db[j] == b[j]);
            }
        }
        assert forall|k: Seq<char>| #[trigger] kv_get(da, k) == kv_get(db, k) by {
            if k == x.0 {
                assert forall|i: int| 0 <= i < da.len() implies (#[trigger] da[i]).0 != k by {
                    assert(str_lt(a[i].0, a[a.len() - 1].0));
                    lemma_str_lt_irrefl(k);
                }
                assert forall|i: int| 0 <= i < db.len() implies (#[trigger] db[i]).0 != k by {
                    assert(str_lt(b[i].0, b[b.len() - 1].0));
                    lemma_str_lt_irrefl(k);
                }
                lemma_kv_get_absent(da, k);
                lemma_kv_get_absent(db, k);
            } else {
                assert(kv_get(a, k) == kv_get(da, k));
                assert(kv_get(b, k) == kv_get(db, k));
            }
        }
        lemma_kv_sorted_unique(da, db);
        assert(a =~= da.push(x));
        assert(b =~= db.push(y));
    }
}

/// Sortedness does not depend on the values.
pub proof fn lemma_sorted_kv<V, W>(es: Seq<(String, V)>, f: spec_fn(V) -> W)
    ensures
        keys_sorted(es) == kv_sorted(kv_view(es, f)),
{
    let kvs = kv_view(es, f);
    if keys_sorted(es) {
        assert forall|i: int, j: int| 0 <= i < j < kvs.len() implies str_lt(#[trigger] kvs[i].0, #[trigger] kvs[j].0) by {
            assert(kvs[i].0 == es[i].0@ && kvs[j].0 == es[j].0@);
        }
    }
    if kv_sorted(kvs) {
        assert forall|i: int, j: int| 0 <= i < j < es.len() implies str_lt(#[trigger] es[i].0@, #[trigger] es[j].0@) by {
            assert(kvs[i].0 == es[i].0@ && kvs[j].0 == es[j].0@);
        }
    }
}

/// The first `n` entries as `"key":value`, joined by commas.
pub open spec fn kv_canon(kvs: Seq<(Seq<char>, JsonValue)>, n: int) -> Seq<char>
    decreases n,
{
    if n <= 0 || n > kvs.len() {
        Seq::empty()
    } else if n == 1 {
        json_quote(kvs[0].0) + seq![':'] + canon(kvs[0].1)
    } else {
        kv_canon(kvs, n - 1) + seq![','] + json_quote(kvs[n - 1].0) + seq![':'] + canon(kvs[n - 1].1)
    }
}

/// The canonical text of an object with entries `kvs`.
pub open spec fn kv_object_text(kvs: Seq<(Seq<char>, JsonValue)>) -> Seq<char> {
    seq!['{'] + kv_canon(kvs, kvs.len() as int) + seq!['}']
}

/// Identity through a reference.
pub open spec fn json_deref<'a>() -> spec_fn(&'a JsonValue) -> JsonValue {
    |v: &'a JsonValue| *v
}

/// Appends the canonical text of an object with the given entries.
pub fn write_object_refs<'a>(es: &Vec<(String, &'a JsonValue)>, out: &mut String)
    ensures
        final(out)@ == old(out)@ + kv_object_text(kv_view(es@, json_deref::<'a>())),
{
    let ghost start = out@;
    let ghost kvs = kv_view(es@, json_deref::<'a>());
    push_char(out, '{');
    let n = es.len();
    for i in 0..n
        invariant
            n == es@.len(),
            kvs == kv_view(es@, json_deref::<'a>()),
            out@ == start + seq!['{'] + kv_canon(kvs, i as int),
    {
        assert(kvs[i as int] == (es@[i as int].0@, *es@[i as int].1));
        if i > 0 {
            push_char(out, ',');
        }
        let q = json_string_literal(es[i].0.as_str());
        out.append(q.as_str());
        push_char(out, ':');
        write_canonical(es[i].1, out);
    }
    push_char(out, '}');
}

/// `assoc_insert` seen through the keys' text.
pub fn assoc_insert_kv<V, W>(es: &mut Vec<(String, V)>, k: String, v: V, Ghost(f): Ghost<spec_fn(V) -> W>)
    requires
        keys_sorted(old(es)@),
    ensures
        kv_view(final(es)@, f) == kv_inserted(kv_view(old(es)@, f), k@, f(v)),
        keys_sorted(final(es)@),
{
    let ghost old_es = es@;
    proof {
        lemma_inserted_kv(old_es, k, v, f);
    }
    assoc_insert(es, k, v);
}


// ---------------------------------------------------------------------
// Members of objects
// ---------------------------------------------------------------------

/// The member `k` of an object (the last entry of that key).
pub open spec fn member(v: JsonValue, k: Seq<char>) -> Option<JsonValue> {
    match v {
        JsonValue::Object(es) => assoc_get(es@, k),
        _ => None,
    }
}

/// Index of the last entry with key `k`.
pub fn member_index(es: &Vec<(String, JsonValue)>, k: &str) -> (r: Option<usize>)
    ensures
        match r {
            Some(i) => i < es@.len() && es@[i as int].0@ == k@ && assoc_get(es@, k@) == Some(es@[i as int].1),
            None => assoc_get(es@, k@) is None,
        },
{
    let mut i = es.len();
    assert(es@.take(i as int) =~= es@);
    while i > 0
        invariant
            i <= es@.len(),
            assoc_get(es@, k@) == assoc_get(es@.take(i as int), k@),
        decreases i,
    {
        assert(es@.take(i as int).drop_last() =~= es@.take(i - 1));
        if str_eq(es[i - 1].0.as_str(), k) {
            return Some(i - 1);
        }
        i = i - 1;
    }
    None
}

} // verus!
