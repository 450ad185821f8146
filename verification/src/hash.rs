//! Content hashes of tools and of whole inventories.
use vstd::prelude::*;
use sha2::Digest;
use crate::json::{
    assoc_insert_kv, json_deref, json_quote, json_string_literal, keys_sorted, kv_get, kv_inserted,
    kv_object_text, kv_sorted, kv_view, lemma_kv_insert_get, lemma_kv_inserted_sorted, lemma_kv_sorted_unique,
    write_object_refs, JsonValue,
};
use crate::text::push_char;
use crate::types::ToolDef;
use vstd::utf8::encode_utf8;

verus! {

/// The SHA-256 digest of `data`.
pub uninterp spec fn sha256(data: Seq<u8>) -> Seq<u8>;

/// `sha2::Sha256::digest`: the SHA-256 digest of `data`, 32 bytes long.
#[verifier::external_body]
fn sha256_digest(data: &[u8]) -> (r: Vec<u8>)
    ensures
        r@ == sha256(data@),
        r@.len() == 32,
{
    sha2::Sha256::digest(data).to_vec()
}

/// Lower-case hexadecimal text of `data`, two digits per byte.
pub open spec fn hex_lower(data: Seq<u8>) -> Seq<char>
    decreases data.len(),
{
    if data.len() == 0 {
        Seq::empty()
    } else {
        hex_lower(data.drop_last()) + seq![
            crate::json::hex_digit((data.last() / 16) as nat),
            crate::json::hex_digit((data.last() % 16) as nat),
        ]
    }
}

/// `hex::encode`: each byte as two lower-case hexadecimal digits, high nibble first.
#[verifier::external_body]
fn hex_encode(data: &[u8]) -> (r: String)
    ensures
        r@ == hex_lower(data@),
{
    hex::encode(data)
}

/// `sha256:` followed by the hex digest of `data`.
pub open spec fn digest_text(data: Seq<u8>) -> Seq<char> {
    "sha256:"@ + hex_lower(sha256(data))
}

/// `sha256:<hex digest>` of `data`.
pub fn sha256_hex(data: &[u8]) -> (r: String)
    ensures
        r@ == digest_text(data@),
{
    let d = sha256_digest(data);
    let h = hex_encode(d.as_slice());
    let mut r = "sha256:".to_owned();
    r.append(h.as_str());
    r
}

/// Entries `es[..n]` inserted into `acc`, in order.
pub open spec fn kv_insert_all(
    acc: Seq<(Seq<char>, JsonValue)>,
    es: Seq<(String, JsonValue)>,
    n: int,
) -> Seq<(Seq<char>, JsonValue)>
    decreases n,
{
    if n <= 0 || n > es.len() {
        acc
    } else {
        kv_inserted(kv_insert_all(acc, es, n - 1), es[n - 1].0@, es[n - 1].1)
    }
}

/// The object that stands for a tool in its hash: name, title,
/// description, inputSchema, outputSchema, then the extra members, each
/// inserted into a sorted map (a later key replaces an earlier one).
pub open spec fn tool_kvs(t: ToolDef) -> Seq<(Seq<char>, JsonValue)> {
    let e1 = kv_inserted(Seq::empty(), "name"@, JsonValue::String(t.name));
    let e2 = match t.title {
        Some(x) => kv_inserted(e1, "title"@, JsonValue::String(x)),
        None => e1,
    };
    let e3 = match t.description {
        Some(x) => kv_inserted(e2, "description"@, JsonValue::String(x)),
        None => e2,
    };
    let e4 = match t.input_schema {
        Some(s) => kv_inserted(e3, "inputSchema"@, s),
        None => e3,
    };
    let e5 = match t.output_schema {
        Some(s) => kv_inserted(e4, "outputSchema"@, s),
        None => e4,
    };
    kv_insert_all(e5, t.extra@, t.extra@.len() as int)
}

/// The content hash of a tool: the digest of the canonical JSON text of
/// `tool_kvs`.
pub open spec fn tool_hash_spec(t: ToolDef) -> Seq<char> {
    digest_text(encode_utf8(kv_object_text(tool_kvs(t))))
}

/// The member `k` of the object hashed for tool `t`: the last extra member
/// `k` where the tool has one; otherwise the name under `name`, the title
/// under `title`, the description under `description`, and the input and
/// output schemas under `inputSchema` and `outputSchema`, each where the
/// tool has it; nothing under any other key.
pub open spec fn hashed_member(t: ToolDef, k: Seq<char>) -> Option<JsonValue> {
    match kv_get(kv_view(t.extra@, |v: JsonValue| v), k) {
        Some(v) => Some(v),
        None => if k == "name"@ {
            Some(JsonValue::String(t.name))
        } else if k == "title"@ {
            match t.title {
                Some(x) => Some(JsonValue::String(x)),
                None => None,
            }
        } else if k == "description"@ {
            match t.description {
                Some(x) => Some(JsonValue::String(x)),
                None => None,
            }
        } else if k == "inputSchema"@ {
            t.input_schema
        } else if k == "outputSchema"@ {
            t.output_schema
        } else {
            None
        },
    }
}

proof fn lemma_insert_all(acc: Seq<(Seq<char>, JsonValue)>, es: Seq<(String, JsonValue)>, n: int)
    requires
        kv_sorted(acc),
        0 <= n <= es.len(),
    ensures
        kv_sorted(kv_insert_all(acc, es, n)),
        forall|k: Seq<char>| #[trigger] kv_get(kv_insert_all(acc, es, n), k) == match kv_get(
            kv_view(es.take(n), |v: JsonValue| v),
            k,
        ) {
            Some(v) => Some(v),
            None => kv_get(acc, k),
        },
    decreases n,
{
    let f = |v: JsonValue| v;
    if n == 0 {
        assert forall|k: Seq<char>| #[trigger] kv_get(kv_insert_all(acc, es, n), k) == match kv_get(
            kv_view(es.take(n), f),
            k,
        ) {
            Some(v) => Some(v),
            None => kv_get(acc, k),
        } by {
            assert(kv_view(es.take(n), f).len() == 0);
        }
    } else {
        lemma_insert_all(acc, es, n - 1);
        let r = kv_insert_all(acc, es, n - 1);
        let key = es[n - 1].0@;
        let val = es[n - 1].1;
        lemma_kv_inserted_sorted(r, key, val);
        let v = kv_view(es.take(n), f);
        assert(v.drop_last() =~= kv_view(es.take(n - 1), f));
        assert(v.last() == (key, val));
        assert forall|k: Seq<char>| #[trigger] kv_get(kv_insert_all(acc, es, n), k) == match kv_get(v, k) {
            Some(w) => Some(w),
            None => kv_get(acc, k),
        } by {
            lemma_kv_insert_get(r, key, val, k);
        }
    }
}

/// A tool's hash is the digest of the canonical text of the key-sorted
/// object whose members are those of `hashed_member`: its name, title,
/// description and schemas, and its extra members.
pub proof fn lemma_tool_hash_object(t: ToolDef, kvs: Seq<(Seq<char>, JsonValue)>)
    requires
        kv_sorted(kvs),
        forall|k: Seq<char>| #[trigger] kv_get(kvs, k) == hashed_member(t, k),
    ensures
        tool_hash_spec(t) == digest_text(encode_utf8(kv_object_text(kvs))),
{
    reveal_strlit("name");
    reveal_strlit("title");
    reveal_strlit("description");
    reveal_strlit("inputSchema");
    reveal_strlit("outputSchema");
    assert("description"@[0] != "inputSchema"@[0]);
    let e0 = Seq::<(Seq<char>, JsonValue)>::empty();
    let e1 = kv_inserted(e0, "name"@, JsonValue::String(t.name));
    let e2 = match t.title {
        Some(x) => kv_inserted(e1, "title"@, JsonValue::String(x)),
        None => e1,
    };
    let e3 = match t.description {
        Some(x) => kv_inserted(e2, "description"@, JsonValue::String(x)),
        None => e2,
    };
    let e4 = match t.input_schema {
        Some(s) => kv_inserted(e3, "inputSchema"@, s),
        None => e3,
    };
    let e5 = match t.output_schema {
        Some(s) => kv_inserted(e4, "outputSchema"@, s),
        None => e4,
    };
    lemma_kv_inserted_sorted(e0, "name"@, JsonValue::String(t.name));
    if let Some(x) = t.title {
        lemma_kv_inserted_sorted(e1, "title"@, JsonValue::String(x));
    }
    if let Some(x) = t.description {
        lemma_kv_inserted_sorted(e2, "description"@, JsonValue::String(x));
    }
    if let Some(s) = t.input_schema {
        lemma_kv_inserted_sorted(e3, "inputSchema"@, s);
    }
    if let Some(s) = t.output_schema {
        lemma_kv_inserted_sorted(e4, "outputSchema"@, s);
    }
    lemma_insert_all(e5, t.extra@, t.extra@.len() as int);
    assert(t.extra@.take(t.extra@.len() as int) =~= t.extra@);
    let m = tool_kvs(t);
    assert(m == kv_insert_all(e5, t.extra@, t.extra@.len() as int));
    assert forall|k: Seq<char>| #[trigger] kv_get(m, k) == kv_get(kvs, k) by {
        lemma_kv_insert_get(e0, "name"@, JsonValue::String(t.name), k);
        if let Some(x) = t.title {
            lemma_kv_insert_get(e1, "title"@, JsonValue::String(x), k);
        }
        if let Some(x) = t.description {
            lemma_kv_insert_get(e2, "description"@, JsonValue::String(x), k);
        }
        if let Some(s) = t.input_schema {
            lemma_kv_insert_get(e3, "inputSchema"@, s, k);
        }
        if let Some(s) = t.output_schema {
            lemma_kv_insert_get(e4, "outputSchema"@, s, k);
        }
        assert(kv_get(e0, k) is None);
        assert(kv_get(kvs, k) == hashed_member(t, k));
    }
    lemma_kv_sorted_unique(m, kvs);
}

/// Content hash of one tool (canonical JSON of its metadata).
pub fn tool_hash(tool: &ToolDef) -> (r: String)
    ensures
        r@ == tool_hash_spec(*tool),
{
    let name_v = JsonValue::String(tool.name.clone());
    let title_v = match &tool.title {
        Some(t) => Some(JsonValue::String(t.clone())),
        None => None,
    };
    let desc_v = match &tool.description {
        Some(d) => Some(JsonValue::String(d.clone())),
        None => None,
    };
    let mut es: Vec<(String, &JsonValue)> = Vec::new();
    let ghost f: spec_fn(&JsonValue) -> JsonValue = json_deref();
    assert(kv_view(es@, f) =~= Seq::empty());
    assoc_insert_kv::<&JsonValue, JsonValue>(&mut es, "name".to_owned(), &name_v, Ghost(f));
    if let Some(tv) = &title_v {
        assoc_insert_kv::<&JsonValue, JsonValue>(&mut es, "title".to_owned(), tv, Ghost(f));
    }
    if let Some(dv) = &desc_v {
        assoc_insert_kv::<&JsonValue, JsonValue>(&mut es, "description".to_owned(), dv, Ghost(f));
    }
    if let Some(s) = &tool.input_schema {
        assoc_insert_kv::<&JsonValue, JsonValue>(&mut es, "inputSchema".to_owned(), s, Ghost(f));
    }
    if let Some(s) = &tool.output_schema {
        assoc_insert_kv::<&JsonValue, JsonValue>(&mut es, "outputSchema".to_owned(), s, Ghost(f));
    }
    let ghost e5 = kv_view(es@, f);
    let n = tool.extra.len();
    for i in 0..n
        invariant
            n == tool.extra@.len(),
            keys_sorted(es@),
            f == json_deref::<'_>(),
            kv_view(es@, f) == kv_insert_all(e5, tool.extra@, i as int),
    {
        assoc_insert_kv::<&JsonValue, JsonValue>(&mut es, tool.extra[i].0.clone(), &tool.extra[i].1, Ghost(f));
    }
    assert(kv_view(es@, f) == tool_kvs(*tool));
    let mut canon = String::new();
    write_object_refs(&es, &mut canon);
    sha256_hex(canon.as_str().as_bytes())
}


/// The text of a string.
pub open spec fn str_view() -> spec_fn(String) -> Seq<char> {
    |s: String| s@
}

/// The first `n` entries of a string-to-string map as `"key":"value"`,
/// joined by commas.
pub open spec fn str_map_canon(kvs: Seq<(Seq<char>, Seq<char>)>, n: int) -> Seq<char>
    decreases n,
{
    if n <= 0 || n > kvs.len() {
        Seq::empty()
    } else if n == 1 {
        json_quote(kvs[0].0) + seq![':'] + json_quote(kvs[0].1)
    } else {
        str_map_canon(kvs, n - 1) + seq![','] + json_quote(kvs[n - 1].0) + seq![':'] + json_quote(
            kvs[n - 1].1,
        )
    }
}

/// The canonical JSON text of a string-to-string map.
pub open spec fn str_map_text(kvs: Seq<(Seq<char>, Seq<char>)>) -> Seq<char> {
    seq!['{'] + str_map_canon(kvs, kvs.len() as int) + seq!['}']
}

/// Appends the canonical JSON text of a string-to-string map.
fn write_string_map(es: &Vec<(String, String)>, out: &mut String)
    ensures
        final(out)@ == old(out)@ + str_map_text(kv_view(es@, str_view())),
{
    let ghost start = out@;
    let ghost kvs = kv_view(es@, str_view());
    push_char(out, '{');
    let n = es.len();
    for i in 0..n
        invariant
            n == es@.len(),
            kvs == kv_view(es@, str_view()),
            out@ == start + seq!['{'] + str_map_canon(kvs, i as int),
    {
        assert(kvs[i as int] == (es@[i as int].0@, es@[i as int].1@));
        if i > 0 {
            push_char(out, ',');
        }
        let k = json_string_literal(es[i].0.as_str());
        out.append(k.as_str());
        push_char(out, ':');
        let v = json_string_literal(es[i].1.as_str());
        out.append(v.as_str());
    }
    push_char(out, '}');
}

/// Tool name to tool hash for the first `n` tools, as a sorted map (a later
/// tool of the same name replaces an earlier one).
pub open spec fn pin_map_spec(ts: Seq<ToolDef>, n: int) -> Seq<(Seq<char>, Seq<char>)>
    decreases n,
{
    if n <= 0 || n > ts.len() {
        Seq::empty()
    } else {
        kv_inserted(pin_map_spec(ts, n - 1), ts[n - 1].name@, tool_hash_spec(ts[n - 1]))
    }
}

/// The map of every tool's name to its hash.
pub open spec fn tool_pins_spec(ts: Seq<ToolDef>) -> Seq<(Seq<char>, Seq<char>)> {
    pin_map_spec(ts, ts.len() as int)
}

/// The hash of a whole inventory: the digest of the canonical JSON text of
/// its name-to-hash map.
pub open spec fn server_hash_spec(ts: Seq<ToolDef>) -> Seq<char> {
    digest_text(encode_utf8(str_map_text(tool_pins_spec(ts))))
}

/// Map of each tool name to its content hash, sorted by name.
pub fn tool_pin_map(tools: &[ToolDef]) -> (r: Vec<(String, String)>)
    ensures
        kv_view(r@, str_view()) == tool_pins_spec(tools@),
        keys_sorted(r@),
{
    let mut map: Vec<(String, String)> = Vec::new();
    let n = tools.len();
    assert(kv_view(map@, str_view()) =~= Seq::empty());
    for i in 0..n
        invariant
            n == tools@.len(),
            keys_sorted(map@),
            kv_view(map@, str_view()) == pin_map_spec(tools@, i as int),
    {
        let h = tool_hash(&tools[i]);
        assoc_insert_kv::<String, Seq<char>>(&mut map, tools[i].name.clone(), h, Ghost(str_view()));
    }
    map
}

/// Hash of a whole inventory (name to tool hash map).
pub fn server_hash(tools: &[ToolDef]) -> (r: String)
    ensures
        r@ == server_hash_spec(tools@),
{
    let map = tool_pin_map(tools);
    let mut canon = String::new();
    write_string_map(&map, &mut canon);
    sha256_hex(canon.as_str().as_bytes())
}


// ---------------------------------------------------------------------
// Pins do not depend on tool order
// ---------------------------------------------------------------------

/// Index of the last of the first `n` tools named `k`.
pub open spec fn last_named(ts: Seq<ToolDef>, k: Seq<char>, n: int) -> Option<int>
    decreases n,
{
    if n <= 0 || n > ts.len() {
        None
    } else if ts[n - 1].name@ == k {
        Some(n - 1)
    } else {
        last_named(ts, k, n - 1)
    }
}

/// No two tools share a name.
pub open spec fn names_distinct(ts: Seq<ToolDef>) -> bool {
    forall|i: int, j: int| 0 <= i < j < ts.len() ==> (#[trigger] ts[i]).name@ != (#[trigger] ts[j]).name@
}

/// `last_named` finds a tool of that name when there is one.
pub proof fn lemma_last_named(ts: Seq<ToolDef>, k: Seq<char>, n: int)
    requires
        0 <= n <= ts.len(),
    ensures
        last_named(ts, k, n) matches Some(i) ==> 0 <= i < n && ts[i].name@ == k,
        last_named(ts, k, n) is None ==> forall|i: int| 0 <= i < n ==> (#[trigger] ts[i]).name@ != k,
    decreases n,
{
    if n > 0 {
        lemma_last_named(ts, k, n - 1);
    }
}

/// The name-to-hash map of the first `n` tools is sorted, and it maps each
/// name to the hash of the last of those tools with that name.
pub proof fn lemma_pin_map(ts: Seq<ToolDef>, n: int, k: Seq<char>)
    requires
        0 <= n <= ts.len(),
    ensures
        kv_sorted(pin_map_spec(ts, n)),
        kv_get(pin_map_spec(ts, n), k) == (match last_named(ts, k, n) {
            Some(i) => Some(tool_hash_spec(ts[i])),
            None => None,
        }),
    decreases n,
{
    if n > 0 {
        lemma_pin_map(ts, n - 1, k);
        let prev = pin_map_spec(ts, n - 1);
        lemma_kv_inserted_sorted(prev, ts[n - 1].name@, tool_hash_spec(ts[n - 1]));
        lemma_kv_insert_get(prev, ts[n - 1].name@, tool_hash_spec(ts[n - 1]), k);
    }
}

/// Both lists name the tool named `k` the same way.
proof fn lemma_same_named(ts1: Seq<ToolDef>, ts2: Seq<ToolDef>, k: Seq<char>)
    requires
        names_distinct(ts2),
        forall|t: ToolDef| ts1.contains(t) ==> ts2.contains(t),
        last_named(ts1, k, ts1.len() as int) is Some,
    ensures
        last_named(ts2, k, ts2.len() as int) matches Some(j) && ts2[j] == ts1[last_named(ts1, k, ts1.len() as int)->0],
{
    lemma_last_named(ts1, k, ts1.len() as int);
    lemma_last_named(ts2, k, ts2.len() as int);
    let i = last_named(ts1, k, ts1.len() as int)->0;
    let t = ts1[i];
    assert(ts1.contains(t));
    assert(ts2.contains(t));
    let j = choose|j: int| 0 <= j < ts2.len() && ts2[j] == t;
    match last_named(ts2, k, ts2.len() as int) {
        Some(j2) => {
            if j2 != j {
                if j < j2 {
                    assert(ts2[j].name@ != ts2[j2].name@);
                } else {
                    assert(ts2[j2].name@ != ts2[j].name@);
                }
            }
        },
        None => {
            assert(ts2[j].name@ != k);
        },
    }
}

/// The pins of an inventory do not depend on the order in which its tools
/// are listed, when no two tools share a name: the same tools in another
/// order have the same name-to-hash map and the same server hash.
pub proof fn lemma_pins_order_free(ts1: Seq<ToolDef>, ts2: Seq<ToolDef>)
    requires
        names_distinct(ts1),
        names_distinct(ts2),
        forall|t: ToolDef| ts1.contains(t) <==> ts2.contains(t),
    ensures
        tool_pins_spec(ts1) == tool_pins_spec(ts2),
        server_hash_spec(ts1) == server_hash_spec(ts2),
{
    let m1 = tool_pins_spec(ts1);
    let m2 = tool_pins_spec(ts2);
    assert forall|k: Seq<char>| #[trigger] kv_get(m1, k) == kv_get(m2, k) by {
        lemma_pin_map(ts1, ts1.len() as int, k);
        lemma_pin_map(ts2, ts2.len() as int, k);
        if last_named(ts1, k, ts1.len() as int) is Some {
            lemma_same_named(ts1, ts2, k);
        } else if last_named(ts2, k, ts2.len() as int) is Some {
            lemma_same_named(ts2, ts1, k);
        }
    }
    lemma_pin_map(ts1, ts1.len() as int, Seq::empty());
    lemma_pin_map(ts2, ts2.len() as int, Seq::empty());
    lemma_kv_sorted_unique(m1, m2);
}

} // verus!
