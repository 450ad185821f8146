//! Views of schema strings used by the detectors, and the walk that
//! collects every string leaf of a tool.
use vstd::prelude::*;
use crate::json::{indices_below, index_int, key_order, key_order_of, kv_view, JsonValue};
pub use crate::json::canonical_json;
use crate::text::{chars_of, concat2, concat3, decimal, ends_with_str, is_suffix, is_whitespace, is_ws, push_char, push_decimal, str_eq};
use crate::types::{StringLeaf, ToolDef};

verus! {

// ---------------------------------------------------------------------
// Whitespace collapsing
// ---------------------------------------------------------------------

/// Output so far and whether the last input character was whitespace,
/// after reading `s`.
pub open spec fn collapse_state(s: Seq<char>) -> (Seq<char>, bool)
    decreases s.len(),
{
    if s.len() == 0 {
        (Seq::empty(), false)
    } else {
        let (out, prev_ws) = collapse_state(s.drop_last());
        let c = s.last();
        if is_ws(c) {
            if !prev_ws {
                (out.push(' '), true)
            } else {
                (out, true)
            }
        } else {
            (out.push(c), false)
        }
    }
}

/// `s` with every run of whitespace replaced by one space.
pub open spec fn collapse(s: Seq<char>) -> Seq<char> {
    collapse_state(s).0
}

/// Collapse runs of whitespace to a single space, for phrase matching.
pub fn collapse_ws(s: &str) -> (r: String)
    ensures
        r@ == collapse(s@),
{
    let mut out = String::new();
    let mut prev_ws = false;
    for ch in it: s.chars()
        invariant
            it.seq() == s@,
            (out@, prev_ws) == collapse_state(s@.take(it.index() as int)),
    {
        assert(s@.take(it.index() + 1).drop_last() == s@.take(it.index() as int));
        if is_whitespace(ch) {
            if !prev_ws {
                push_char(&mut out, ' ');
                prev_ws = true;
            }
        } else {
            prev_ws = false;
            push_char(&mut out, ch);
        }
    }
    assert(s@.take(s@.len() as int) == s@);
    out
}

/// Whitespace in `t` is only single spaces.
pub open spec fn single_spaced(t: Seq<char>) -> bool {
    &&& forall|i: int| 0 <= i < t.len() && is_ws(#[trigger] t[i]) ==> t[i] == ' '
    &&& forall|i: int| 0 < i < t.len() && #[trigger] t[i] == ' ' ==> t[i - 1] != ' '
}

proof fn lemma_collapse_state(s: Seq<char>)
    ensures
        single_spaced(collapse_state(s).0),
        collapse_state(s).1 <==> (collapse_state(s).0.len() > 0 && collapse_state(s).0.last()
            == ' '),
        collapse_state(s).0.len() <= s.len(),
    decreases s.len(),
{
    if s.len() > 0 {
        lemma_collapse_state(s.drop_last());
        let (o, p) = collapse_state(s.drop_last());
        let c = s.last();
        let (o2, p2) = collapse_state(s);
        assert forall|i: int| 0 <= i < o2.len() && is_ws(#[trigger] o2[i]) implies o2[i] == ' ' by {
            if i < o.len() {
                assert(o2[i] == o[i]);
            }
        }
        assert forall|i: int| 0 < i < o2.len() && #[trigger] o2[i] == ' ' implies o2[i - 1]
            != ' ' by {
            if i < o.len() {
                assert(o2[i] == o[i]);
                assert(o2[i - 1] == o[i - 1]);
            } else {
                assert(o2[i - 1] == o[i - 1]);
            }
        }
    }
}

proof fn lemma_collapse_fixed(t: Seq<char>)
    requires
        single_spaced(t),
    ensures
        collapse_state(t) == (t, t.len() > 0 && t.last() == ' '),
    decreases t.len(),
{
    if t.len() > 0 {
        let u = t.drop_last();
        assert(single_spaced(u)) by {
            assert forall|i: int| 0 <= i < u.len() && is_ws(#[trigger] u[i]) implies u[i] == ' ' by {
                assert(u[i] == t[i]);
            }
            assert forall|i: int| 0 < i < u.len() && #[trigger] u[i] == ' ' implies u[i - 1]
                != ' ' by {
                assert(u[i] == t[i] && u[i - 1] == t[i - 1]);
            }
        }
        lemma_collapse_fixed(u);
        assert(u.push(t.last()) =~= t);
        if is_ws(t.last()) {
            assert(t[t.len() - 1] == ' ');
            if t.len() > 1 {
                assert(t[t.len() - 2] != ' ');
            }
        }
    }
}

/// Collapsing is idempotent: a collapsed string has single spaces only and
/// collapses to itself.
pub proof fn lemma_collapse_idempotent(s: Seq<char>)
    ensures
        single_spaced(collapse(s)),
        collapse(collapse(s)) == collapse(s),
        collapse(s).len() <= s.len(),
{
    lemma_collapse_state(s);
    lemma_collapse_fixed(collapse(s));
}

// ---------------------------------------------------------------------
// Space runs
// ---------------------------------------------------------------------

/// The longest run seen so far and the current run of `' '`, after `s`.
pub open spec fn space_runs(s: Seq<char>) -> (nat, nat)
    decreases s.len(),
{
    if s.len() == 0 {
        (0, 0)
    } else {
        let (mx, cur) = space_runs(s.drop_last());
        if s.last() == ' ' {
            let c = cur + 1;
            (if c > mx { c } else { mx }, c)
        } else {
            (mx, 0)
        }
    }
}

/// Length of the longest run of consecutive ASCII spaces in `s`.
pub open spec fn max_run(s: Seq<char>) -> nat {
    space_runs(s).0
}

proof fn lemma_space_runs_bound(s: Seq<char>)
    ensures
        space_runs(s).1 <= space_runs(s).0 <= s.len(),
    decreases s.len(),
{
    if s.len() > 0 {
        lemma_space_runs_bound(s.drop_last());
    }
}

/// Count consecutive ASCII spaces; return the longest run.
pub fn max_space_run(s: &str) -> (r: usize)
    ensures
        r == max_run(s@),
{
    let mut max: usize = 0;
    let mut cur: usize = 0;
    let n = s.unicode_len();
    for ch in it: s.chars()
        invariant
            it.seq() == s@,
            n == s@.len(),
            (max as nat, cur as nat) == space_runs(s@.take(it.index() as int)),
    {
        proof {
            lemma_space_runs_bound(s@.take(it.index() as int));
        }
        assert(s@.take(it.index() + 1).drop_last() == s@.take(it.index() as int));
        if ch == ' ' {
            cur = cur + 1;
            if cur > max {
                max = cur;
            }
        } else {
            cur = 0;
        }
    }
    assert(s@.take(s@.len() as int) == s@);
    max
}

/// A single-spaced string has no run of two spaces.
pub proof fn lemma_single_spaced_run(t: Seq<char>)
    requires
        single_spaced(t),
    ensures
        max_run(t) <= 1,
        space_runs(t).1 <= 1,
        space_runs(t).1 == 1 <==> (t.len() > 0 && t.last() == ' '),
    decreases t.len(),
{
    if t.len() > 0 {
        let u = t.drop_last();
        assert(single_spaced(u)) by {
            assert forall|i: int| 0 <= i < u.len() && is_ws(#[trigger] u[i]) implies u[i] == ' ' by {
                assert(u[i] == t[i]);
            }
            assert forall|i: int| 0 < i < u.len() && #[trigger] u[i] == ' ' implies u[i - 1]
                != ' ' by {
                assert(u[i] == t[i] && u[i - 1] == t[i - 1]);
            }
        }
        lemma_single_spaced_run(u);
        if t.last() == ' ' && t.len() > 1 {
            assert(t[t.len() - 1] == ' ');
            assert(t[t.len() - 2] != ' ');
        }
    }
}

/// After collapsing, no two spaces are adjacent.
pub proof fn lemma_collapse_space_run(s: Seq<char>)
    ensures
        max_run(collapse(s)) <= 1,
{
    lemma_collapse_idempotent(s);
    lemma_single_spaced_run(collapse(s));
}

// ---------------------------------------------------------------------
// Invisible characters
// ---------------------------------------------------------------------

/// The escape character U+001B.
pub open spec fn is_esc(c: char) -> bool {
    c == '\x1b'
}

/// `s` holds an escape character (its UTF-8 bytes hold 0x1B exactly then).
pub fn has_ansi(s: &str) -> (r: bool)
    ensures
        r == exists|i: int| 0 <= i < s@.len() && is_esc(#[trigger] s@[i]),
{
    for c in it: s.chars()
        invariant
            it.seq() == s@,
            forall|k: int| 0 <= k < it.index() ==> !is_esc(#[trigger] s@[k]),
    {
        if c == '\x1b' {
            assert(is_esc(s@[it.index() as int]));
            return true;
        }
    }
    false
}

/// Zero-width characters, bidirectional controls and tag characters.
pub open spec fn is_bidi_or_zw(c: char) -> bool {
    let u = c as u32;
    ||| u == 0x200b
    ||| u == 0x200c
    ||| u == 0x200d
    ||| u == 0x2060
    ||| u == 0xfeff
    ||| (0x202a <= u && u <= 0x202e)
    ||| (0x2066 <= u && u <= 0x2069)
    ||| (0xe0001 <= u && u <= 0xe007f)
}

/// Whether `s` holds a bidi control, zero-width or tag character.
pub fn has_bidi_or_zw(s: &str) -> (r: bool)
    ensures
        r == exists|i: int| 0 <= i < s@.len() && is_bidi_or_zw(#[trigger] s@[i]),
{
    for c in it: s.chars()
        invariant
            it.seq() == s@,
            forall|k: int| 0 <= k < it.index() ==> !is_bidi_or_zw(#[trigger] s@[k]),
    {
        let u = c as u32;
        if u == 0x200b || u == 0x200c || u == 0x200d || u == 0x2060 || u == 0xfeff || (0x202a
            <= u && u <= 0x202e) || (0x2066 <= u && u <= 0x2069) || (0xe0001 <= u && u
            <= 0xe007f) {
            assert(is_bidi_or_zw(s@[it.index() as int]));
            return true;
        }
    }
    false
}


// ---------------------------------------------------------------------
// ANSI escape stripping
// ---------------------------------------------------------------------

/// Position after a CSI sequence body starting at `i`: just past the first
/// final character in `@..=~`, or the end.
pub open spec fn csi_end(b: Seq<char>, i: int) -> int
    decreases b.len() - i,
{
    if i < 0 || i >= b.len() {
        b.len() as int
    } else if '@' <= b[i] && b[i] <= '~' {
        i + 1
    } else {
        csi_end(b, i + 1)
    }
}

/// Position after an OSC sequence body starting at `i`: just past BEL or
/// `ESC \`, or the end.
pub open spec fn osc_end(b: Seq<char>, i: int) -> int
    decreases b.len() - i,
{
    if i < 0 || i >= b.len() {
        b.len() as int
    } else if b[i] == '\x07' {
        i + 1
    } else if b[i] == '\x1b' && i + 1 < b.len() && b[i + 1] == '\\' {
        i + 2
    } else {
        osc_end(b, i + 1)
    }
}

proof fn lemma_csi_end(b: Seq<char>, i: int)
    requires
        0 <= i <= b.len(),
    ensures
        i <= csi_end(b, i) <= b.len(),
    decreases b.len() - i,
{
    if i < b.len() && !('@' <= b[i] && b[i] <= '~') {
        lemma_csi_end(b, i + 1);
    }
}

proof fn lemma_osc_end(b: Seq<char>, i: int)
    requires
        0 <= i <= b.len(),
    ensures
        i <= osc_end(b, i) <= b.len(),
    decreases b.len() - i,
{
    if i < b.len() && b[i] != 0x07 && !(b[i] == '\x1b' && i + 1 < b.len() && b[i + 1] == '\\') {
        lemma_osc_end(b, i + 1);
    }
}

/// What remains of `b[i..]` once escape sequences are dropped: after ESC,
/// a CSI (`[` … final character in `@..=~`) or OSC (`]` … BEL or ESC `\`)
/// body is skipped, and otherwise one more character; every other
/// character is kept whole.
pub open spec fn strip_from(b: Seq<char>, i: int) -> Seq<char>
    decreases b.len() - i, 1int,
{
    if i < 0 || i >= b.len() {
        Seq::empty()
    } else if b[i] == '\x1b' {
        let j = i + 1;
        if j < b.len() && b[j] == '[' {
            strip_next(b, i, csi_end(b, j + 1))
        } else if j < b.len() && b[j] == ']' {
            strip_next(b, i, osc_end(b, j + 1))
        } else if j < b.len() {
            strip_next(b, i, j + 1)
        } else {
            Seq::empty()
        }
    } else {
        seq![b[i]] + strip_from(b, i + 1)
    }
}

/// Continue stripping at `k`, which lies past `i`.
pub open spec fn strip_next(b: Seq<char>, i: int, k: int) -> Seq<char>
    decreases b.len() - i, 0int,
{
    if i < k <= b.len() {
        strip_from(b, k)
    } else {
        Seq::empty()
    }
}

/// The "human visible" text of `s`: `s` with its ANSI CSI / OSC sequences
/// removed, every other character kept.
pub open spec fn stripped(s: Seq<char>) -> Seq<char> {
    strip_from(s, 0)
}

/// Strip common ANSI CSI / OSC sequences for a "human visible" view.
pub fn strip_ansi(s: &str) -> (r: String)
    ensures
        r@ == stripped(s@),
{
    let mut out = String::new();
    let bytes = chars_of(s);
    let ghost b = bytes@;
    let n = bytes.len();
    let mut i: usize = 0;
    while i < n
        invariant
            n == b.len(),
            b == bytes@,
            b == s@,
            i <= n,
            strip_from(b, 0) == out@ + strip_from(b, i as int),
        decreases n - i,
    {
        if bytes[i] == '\x1b' {
            let start = i;
            i = i + 1;
            if i < n && bytes[i] == '[' {
                i = i + 1;
                proof {
                    lemma_csi_end(b, i as int);
                }
                while i < n
                    invariant_except_break
                        csi_end(b, start + 2) == csi_end(b, i as int),
                    invariant
                        b[start as int] == '\x1b',
                        b[start + 1] == '[',
                        n == b.len(),
                        b == bytes@,
                        start + 2 <= i <= n,
                    ensures
                        start + 2 <= i <= n,
                        csi_end(b, start + 2) == i,
                    decreases n - i,
                {
                    assert(csi_end(b, n as int) == n);
                    proof {
                        lemma_csi_end(b, i as int);
                    }
                    let x = bytes[i];
                    i = i + 1;
                    if '@' <= x && x <= '~' {
                        break;
                    }
                }
                assert(strip_from(b, start as int) == strip_next(b, start as int, i as int));
                assert(strip_from(b, start as int) == strip_from(b, i as int));
                continue;
            }
            if i < n && bytes[i] == ']' {
                i = i + 1;
                while i < n
                    invariant_except_break
                        osc_end(b, start + 2) == osc_end(b, i as int),
                    invariant
                        b[start as int] == '\x1b',
                        b[start + 1] == ']',
                        n == b.len(),
                        b == bytes@,
                        start + 2 <= i <= n,
                    ensures
                        start + 2 <= i <= n,
                        osc_end(b, start + 2) == i,
                    decreases n - i,
                {
                    assert(osc_end(b, n as int) == n);
                    proof {
                        lemma_osc_end(b, i as int);
                    }
                    if bytes[i] == '\x07' {
                        i = i + 1;
                        break;
                    }
                    if bytes[i] == '\x1b' && i + 1 < n && bytes[i + 1] == '\\' {
                        i = i + 2;
                        break;
                    }
                    i = i + 1;
                }
                assert(strip_from(b, start as int) == strip_next(b, start as int, i as int));
                assert(strip_from(b, start as int) == strip_from(b, i as int));
                continue;
            }
            if i < n {
                i = i + 1;
                assert(strip_from(b, start as int) == strip_next(b, start as int, i as int));
            }
            assert(strip_from(b, start as int) == strip_from(b, i as int));
            continue;
        }
        push_char(&mut out, bytes[i]);
        i = i + 1;
    }
    out
}

/// No escape character survives stripping.
pub proof fn lemma_stripped_has_no_esc(b: Seq<char>, i: int)
    ensures
        forall|k: int| 0 <= k < strip_from(b, i).len() ==> !is_esc(#[trigger] strip_from(b, i)[k]),
    decreases b.len() - i,
{
    if 0 <= i < b.len() {
        if b[i] == '\x1b' {
            let j = i + 1;
            if j < b.len() && b[j] == '[' {
                lemma_csi_end(b, j + 1);
                lemma_stripped_has_no_esc(b, csi_end(b, j + 1));
                assert(strip_from(b, i) == strip_next(b, i, csi_end(b, j + 1)));
                assert(strip_from(b, i) == strip_from(b, csi_end(b, j + 1)));
            } else if j < b.len() && b[j] == ']' {
                lemma_osc_end(b, j + 1);
                lemma_stripped_has_no_esc(b, osc_end(b, j + 1));
                assert(strip_from(b, i) == strip_next(b, i, osc_end(b, j + 1)));
                assert(strip_from(b, i) == strip_from(b, osc_end(b, j + 1)));
            } else if j < b.len() {
                lemma_stripped_has_no_esc(b, j + 1);
                assert(strip_from(b, i) == strip_next(b, i, j + 1));
                assert(strip_from(b, i) == strip_from(b, j + 1));
            }
        } else {
            lemma_stripped_has_no_esc(b, i + 1);
            let t = strip_from(b, i);
            assert forall|k: int| 0 <= k < t.len() implies !is_esc(#[trigger] t[k]) by {
                if k == 0 {
                    assert(t[0] == b[i]);
                } else {
                    assert(t[k] == strip_from(b, i + 1)[k - 1]);
                }
            }
        }
    }
}


/// Escape characters never survive `strip_ansi`.
pub proof fn lemma_strip_ansi_removes_escapes(s: Seq<char>)
    ensures
        forall|k: int| 0 <= k < stripped(s).len() ==> !is_esc(#[trigger] stripped(s)[k]),
{
    lemma_stripped_has_no_esc(s, 0);
}

/// Text without an escape character comes out of stripping unchanged.
proof fn lemma_strip_plain(b: Seq<char>, i: int)
    requires
        0 <= i <= b.len(),
        forall|k: int| 0 <= k < b.len() ==> b[k] != '\x1b',
    ensures
        strip_from(b, i) == b.skip(i),
    decreases b.len() - i,
{
    if i < b.len() {
        lemma_strip_plain(b, i + 1);
        assert(b.skip(i) =~= seq![b[i]] + b.skip(i + 1));
    } else {
        assert(b.skip(i) =~= Seq::<char>::empty());
    }
}

/// `strip_ansi` leaves text without an escape character as it is.
pub proof fn lemma_strip_ansi_keeps_plain_text(s: Seq<char>)
    requires
        forall|k: int| 0 <= k < s.len() ==> s[k] != '\x1b',
    ensures
        stripped(s) == s,
{
    lemma_strip_plain(s, 0);
    assert(s.skip(0) =~= s);
}

// ---------------------------------------------------------------------
// String leaves
// ---------------------------------------------------------------------

/// Path of member `k` under `base`.
pub open spec fn child_path(base: Seq<char>, k: Seq<char>) -> Seq<char> {
    if base.len() == 0 || base == "$"@ {
        "$."@ + k
    } else {
        base + "."@ + k
    }
}

/// Path of item `i` under `base`.
pub open spec fn index_path(base: Seq<char>, i: nat) -> Seq<char> {
    base + "["@ + decimal(i) + "]"@
}

/// Member names under a `properties` object are model-visible too.
pub open spec fn under_properties(base: Seq<char>) -> bool {
    is_suffix(".properties"@, base) || is_suffix("properties"@, base)
}

/// Deepest nesting level of a schema that is walked.
pub const MAX_WALK_DEPTH: usize = 64;

/// Most string leaves collected for one tool.
pub const MAX_STRING_LEAVES: usize = 50_000;

/// Longest leaf text kept; longer texts are clipped.
pub const MAX_LEAF_CHARS: usize = 500_000;

/// `s` clipped to `MAX_LEAF_CHARS` characters.
pub open spec fn clip(s: Seq<char>) -> Seq<char> {
    if s.len() > MAX_LEAF_CHARS {
        s.take(MAX_LEAF_CHARS as int)
    } else {
        s
    }
}

/// Every string leaf under `v` at nesting level `depth`, as (path, text),
/// object members in key order (the last entry of a key counts); member names under `properties` count as leaves
/// at `path#key`. Levels beyond `MAX_WALK_DEPTH` are not walked, and texts
/// are clipped.
pub open spec fn walk(v: JsonValue, base: Seq<char>, depth: nat) -> Seq<(Seq<char>, Seq<char>)>
    decreases v, 0int,
{
    if depth > MAX_WALK_DEPTH {
        Seq::empty()
    } else {
        match v {
            JsonValue::String(s) => seq![(base, clip(s@))],
            JsonValue::Array(a) => walk_items(a@, base, depth, a@.len() as int),
            JsonValue::Object(m) => {
                let ord = key_order(m@, m@.len() as int);
                walk_entries(m@, ord, base, depth, ord.len() as int)
            },
            _ => Seq::empty(),
        }
    }
}

/// Leaves of the first `n` items of an array at `base`, level `depth`.
pub open spec fn walk_items(items: Seq<JsonValue>, base: Seq<char>, depth: nat, n: int) -> Seq<(Seq<char>, Seq<char>)>
    decreases items, n,
{
    if n <= 0 || n > items.len() {
        Seq::empty()
    } else {
        walk_items(items, base, depth, n - 1) + walk(items[n - 1], index_path(base, (n - 1) as nat), depth + 1)
    }
}

/// Leaves of the members named by the first `n` members of `ord` (the
/// object's keys in sorted order, each with the index of its entry), at
/// `base`, level `depth`.
pub open spec fn walk_entries(
    es: Seq<(String, JsonValue)>,
    ord: Seq<(Seq<char>, int)>,
    base: Seq<char>,
    depth: nat,
    n: int,
) -> Seq<(Seq<char>, Seq<char>)>
    decreases es, n,
{
    if n <= 0 || n > ord.len() {
        Seq::empty()
    } else {
        let k = ord[n - 1].0;
        let j = ord[n - 1].1;
        let path = child_path(base, k);
        walk_entries(es, ord, base, depth, n - 1) + (if under_properties(base) {
            seq![(path + "#key"@, clip(k))]
        } else {
            Seq::empty()
        }) + (if 0 <= j < es.len() {
            walk(es[j].1, path, depth + 1)
        } else {
            Seq::empty()
        })
    }
}

/// The views of (path, text) pairs.
pub open spec fn pairs_view(ps: Seq<(String, String)>) -> Seq<(Seq<char>, Seq<char>)> {
    ps.map_values(|p: (String, String)| (p.0@, p.1@))
}

proof fn lemma_pairs_view_push(ps: Seq<(String, String)>, p: (String, String))
    ensures
        pairs_view(ps.push(p)) == pairs_view(ps).push((p.0@, p.1@)),
{
    assert(pairs_view(ps.push(p)) =~= pairs_view(ps).push((p.0@, p.1@)));
}

/// Path of member `k` under `base`.
pub fn member_path(base: &str, k: &str) -> (r: String)
    ensures
        r@ == child_path(base@, k@),
{
    if base.is_empty() || str_eq(base, "$") {
        concat2("$.", k)
    } else {
        concat3(base, ".", k)
    }
}

/// Path of item `i` under `base`.
pub fn item_path(base: &str, i: usize) -> (r: String)
    ensures
        r@ == index_path(base@, i as nat),
{
    let mut r = base.to_owned();
    r.append("[");
    push_decimal(&mut r, i);
    r.append("]");
    r
}

/// `s` clipped to `MAX_LEAF_CHARS` characters.
pub fn clip_text(s: &str) -> (r: String)
    ensures
        r@ == clip(s@),
{
    if s.unicode_len() > MAX_LEAF_CHARS {
        let cs = chars_of(s);
        let t = crate::text::slice_take(cs.as_slice(), MAX_LEAF_CHARS);
        crate::text::string_from_chars(t.as_slice())
    } else {
        s.to_owned()
    }
}

/// The string leaves under a value at nesting level `depth`.
fn walk_from(value: &JsonValue, base_path: &str, depth: usize, out: &mut Vec<(String, String)>)
    requires
        depth <= MAX_WALK_DEPTH + 1,
    ensures
        pairs_view(final(out)@) == pairs_view(old(out)@) + walk(*value, base_path@, depth as nat),
    decreases value,
{
    if depth > MAX_WALK_DEPTH {
        assert(pairs_view(out@) =~= pairs_view(out@) + walk(*value, base_path@, depth as nat));
        return;
    }
    match value {
        JsonValue::String(s) => {
            let p = (base_path.to_owned(), clip_text(s.as_str()));
            proof {
                lemma_pairs_view_push(out@, p);
            }
            out.push(p);
        },
        JsonValue::Array(arr) => {
            let ghost start = pairs_view(out@);
            let n = arr.len();
            for i in 0..n
                invariant
                    n == arr@.len(),
                    depth <= MAX_WALK_DEPTH,
                    *value == JsonValue::Array(*arr),
                    pairs_view(out@) == start + walk_items(arr@, base_path@, depth as nat, i as int),
            {
                let path = item_path(base_path, i);
                proof {
                    assert(decreases_to!(*value => (*value)->Array_0));
                    assert(decreases_to!(*arr => arr@));
                    assert(decreases_to!(arr@ => arr@[i as int]));
                }
                walk_from(&arr[i], path.as_str(), depth + 1, out);
            }
        },
        JsonValue::Object(map) => {
            let ghost start = pairs_view(out@);
            let ord = key_order_of(map);
            let ghost ov = key_order(map@, map@.len() as int);
            let n = ord.len();
            let props = ends_with_str(base_path, ".properties") || ends_with_str(base_path, "properties");
            for t in 0..n
                invariant
                    n == ord@.len(),
                    depth <= MAX_WALK_DEPTH,
                    *value == JsonValue::Object(*map),
                    kv_view(ord@, index_int()) == ov,
                    ov == key_order(map@, map@.len() as int),
                    indices_below(ov, map@.len() as int),
                    props == under_properties(base_path@),
                    pairs_view(out@) == start + walk_entries(map@, ov, base_path@, depth as nat, t as int),
            {
                assert(ov[t as int] == (ord@[t as int].0@, ord@[t as int].1 as int));
                let k = ord[t].0.as_str();
                let j = ord[t].1;
                assert(0 <= ov[t as int].1 < map@.len());
                let path = member_path(base_path, k);
                if props {
                    let p = (concat2(path.as_str(), "#key"), clip_text(k));
                    proof {
                        lemma_pairs_view_push(out@, p);
                    }
                    out.push(p);
                }
                proof {
                    assert(decreases_to!(*value => (*value)->Object_0));
                    assert(decreases_to!(*map => map@));
                    assert(decreases_to!(map@ => map@[j as int]));
                    assert(decreases_to!(map@[j as int] => map@[j as int].1));
                }
                walk_from(&map[j].1, path.as_str(), depth + 1, out);
            }
        },
        _ => {},
    }
}

/// Walk every JSON string leaf under a value; `base_path` is a JSONPath-ish prefix.
pub fn walk_strings(value: &JsonValue, base_path: &str, out: &mut Vec<(String, String)>)
    ensures
        pairs_view(final(out)@) == pairs_view(old(out)@) + walk(*value, base_path@, 0),
{
    walk_from(value, base_path, 0, out);
}

/// `$.tools[idx]`.
pub open spec fn tool_base(idx: nat) -> Seq<char> {
    "$.tools["@ + decimal(idx) + "]"@
}

/// A leaf for an optional string.
pub open spec fn opt_pair(o: Option<String>, path: Seq<char>) -> Seq<(Seq<char>, Seq<char>)> {
    match o {
        Some(t) => seq![(path, clip(t@))],
        None => Seq::empty(),
    }
}

/// The leaves of an optional value.
pub open spec fn opt_walk(o: Option<JsonValue>, path: Seq<char>) -> Seq<(Seq<char>, Seq<char>)> {
    match o {
        Some(v) => walk(v, path, 0),
        None => Seq::empty(),
    }
}

/// Leaves of the first `n` extra members of a tool at `base`.
pub open spec fn extra_walk(es: Seq<(String, JsonValue)>, base: Seq<char>, n: int) -> Seq<(Seq<char>, Seq<char>)>
    decreases n,
{
    if n <= 0 || n > es.len() {
        Seq::empty()
    } else {
        extra_walk(es, base, n - 1) + walk(es[n - 1].1, base + "."@ + es[n - 1].0@, 0)
    }
}

/// All scannable (path, text) pairs of tool number `idx`: name, title,
/// description, the input and output schemas, then the extra members.
pub open spec fn tool_pairs(tool: ToolDef, idx: nat) -> Seq<(Seq<char>, Seq<char>)> {
    let base = tool_base(idx);
    seq![(base + ".name"@, clip(tool.name@))] + opt_pair(tool.title, base + ".title"@) + opt_pair(
        tool.description,
        base + ".description"@,
    ) + opt_walk(tool.input_schema, base + ".inputSchema"@) + opt_walk(
        tool.output_schema,
        base + ".outputSchema"@,
    ) + extra_walk(tool.extra@, base, tool.extra@.len() as int)
}

/// The pairs of a tool that are kept: at most `MAX_STRING_LEAVES`.
pub open spec fn capped(ps: Seq<(Seq<char>, Seq<char>)>) -> Seq<(Seq<char>, Seq<char>)> {
    if ps.len() > MAX_STRING_LEAVES {
        ps.take(MAX_STRING_LEAVES as int)
    } else {
        ps
    }
}

/// The leaves `ls` are the pairs `ps`, each attributed to tool `name`.
pub open spec fn leaves_are(ls: Seq<StringLeaf>, name: Seq<char>, ps: Seq<(Seq<char>, Seq<char>)>) -> bool {
    &&& ls.len() == ps.len()
    &&& forall|i: int|
        0 <= i < ls.len() ==> #[trigger] ls[i].tool_name@ == name && ls[i].json_path@ == ps[i].0
            && ls[i].value@ == ps[i].1
}

/// Appends the pair for an optional string at `path`.
fn push_opt_pair(out: &mut Vec<(String, String)>, o: &Option<String>, path: String)
    ensures
        pairs_view(final(out)@) == pairs_view(old(out)@) + opt_pair(*o, path@),
{
    match o {
        Some(t) => {
            let p = (path, clip_text(t.as_str()));
            proof {
                lemma_pairs_view_push(out@, p);
            }
            out.push(p);
        },
        None => {
            assert(pairs_view(out@) =~= pairs_view(out@) + opt_pair(*o, path@));
        },
    }
}

/// Appends the leaves of an optional schema at `path`.
fn push_opt_walk(out: &mut Vec<(String, String)>, o: &Option<JsonValue>, path: String)
    ensures
        pairs_view(final(out)@) == pairs_view(old(out)@) + opt_walk(*o, path@),
{
    match o {
        Some(v) => walk_strings(v, path.as_str(), out),
        None => {
            assert(pairs_view(out@) =~= pairs_view(out@) + opt_walk(*o, path@));
        },
    }
}

/// Appends the leaves of the extra members of a tool at `base`.
fn push_extra_walk(out: &mut Vec<(String, String)>, es: &Vec<(String, JsonValue)>, base: &str)
    ensures
        pairs_view(final(out)@) == pairs_view(old(out)@) + extra_walk(es@, base@, es@.len() as int),
{
    let ghost start = pairs_view(out@);
    let n = es.len();
    for i in 0..n
        invariant
            n == es@.len(),
            pairs_view(out@) == start + extra_walk(es@, base@, i as int),
    {
        let path = concat3(base, ".", es[i].0.as_str());
        walk_strings(&es[i].1, path.as_str(), out);
    }
}

/// The (path, text) pairs of one tool.
#[verifier::rlimit(40)]
fn tool_pair_list(tool: &ToolDef, tool_index: usize) -> (r: Vec<(String, String)>)
    ensures
        pairs_view(r@) == tool_pairs(*tool, tool_index as nat),
{
    let mut base = String::new();
    base.append("$.tools[");
    push_decimal(&mut base, tool_index);
    base.append("]");
    let base = base.as_str();
    let mut pairs: Vec<(String, String)> = Vec::new();
    let p = (concat2(base, ".name"), clip_text(tool.name.as_str()));
    proof {
        lemma_pairs_view_push(pairs@, p);
    }
    pairs.push(p);
    let ghost s0 = pairs_view(pairs@);
    push_opt_pair(&mut pairs, &tool.title, concat2(base, ".title"));
    let ghost s1 = pairs_view(pairs@);
    push_opt_pair(&mut pairs, &tool.description, concat2(base, ".description"));
    let ghost s2 = pairs_view(pairs@);
    push_opt_walk(&mut pairs, &tool.input_schema, concat2(base, ".inputSchema"));
    let ghost s3 = pairs_view(pairs@);
    push_opt_walk(&mut pairs, &tool.output_schema, concat2(base, ".outputSchema"));
    let ghost s4 = pairs_view(pairs@);
    push_extra_walk(&mut pairs, &tool.extra, base);
    assert(s0 =~= seq![(base@ + ".name"@, clip(tool.name@))]);
    assert(pairs_view(pairs@) =~= tool_pairs(*tool, tool_index as nat));
    pairs
}

/// Collect all scannable string leaves for one tool, including name and schema keys.
#[verifier::rlimit(40)]
pub fn tool_string_leaves(tool: &ToolDef, tool_index: usize) -> (r: Vec<StringLeaf>)
    ensures
        leaves_are(r@, tool.name@, capped(tool_pairs(*tool, tool_index as nat))),
{
    let pairs = tool_pair_list(tool, tool_index);
    let ghost ps = capped(pairs_view(pairs@));
    let mut out: Vec<StringLeaf> = Vec::new();
    let m = if pairs.len() > MAX_STRING_LEAVES {
        MAX_STRING_LEAVES
    } else {
        pairs.len()
    };
    let mut i: usize = 0;
    while i < m
        invariant
            m <= pairs@.len(),
            m == ps.len(),
            ps == capped(pairs_view(pairs@)),
            i <= m,
            out@.len() == i,
            forall|j: int|
                0 <= j < i ==> #[trigger] out@[j].tool_name@ == tool.name@ && out@[j].json_path@
                    == ps[j].0 && out@[j].value@ == ps[j].1,
        decreases m - i,
    {
        assert(ps[i as int] == (pairs@[i as int].0@, pairs@[i as int].1@));
        let leaf = StringLeaf {
            tool_name: tool.name.clone(),
            json_path: pairs[i].0.clone(),
            value: pairs[i].1.clone(),
        };
        let ghost old_out = out@;
        out.push(leaf);
        assert forall|j: int| 0 <= j < i + 1 implies #[trigger] out@[j].tool_name@ == tool.name@
            && out@[j].json_path@ == ps[j].0 && out@[j].value@ == ps[j].1 by {
            if j < i {
                assert(out@[j] == old_out[j]);
            }
        }
        i = i + 1;
    }
    assert(ps == capped(tool_pairs(*tool, tool_index as nat)));
    assert(leaves_are(out@, tool.name@, ps));
    out
}


/// Every text of `ps` is at most `MAX_LEAF_CHARS` characters long.
pub open spec fn texts_clipped(ps: Seq<(Seq<char>, Seq<char>)>) -> bool {
    forall|i: int| 0 <= i < ps.len() ==> (#[trigger] ps[i]).1.len() <= MAX_LEAF_CHARS
}

proof fn lemma_clipped_add(a: Seq<(Seq<char>, Seq<char>)>, b: Seq<(Seq<char>, Seq<char>)>)
    requires
        texts_clipped(a),
        texts_clipped(b),
    ensures
        texts_clipped(a + b),
{
    assert forall|i: int| 0 <= i < (a + b).len() implies (#[trigger] (a + b)[i]).1.len() <= MAX_LEAF_CHARS by {
        if i < a.len() {
            assert((a + b)[i] == a[i]);
        } else {
            assert((a + b)[i] == b[i - a.len()]);
        }
    }
}

proof fn lemma_walk_clipped(v: JsonValue, base: Seq<char>, depth: nat)
    ensures
        texts_clipped(walk(v, base, depth)),
    decreases v, 1int,
{
    if depth <= MAX_WALK_DEPTH {
        match v {
            JsonValue::Array(a) => lemma_items_clipped(a@, base, depth, a@.len() as int),
            JsonValue::Object(m) => {
                let ord = key_order(m@, m@.len() as int);
                lemma_entries_clipped(m@, ord, base, depth, ord.len() as int)
            },
            _ => {},
        }
    }
}

proof fn lemma_items_clipped(items: Seq<JsonValue>, base: Seq<char>, depth: nat, n: int)
    ensures
        texts_clipped(walk_items(items, base, depth, n)),
    decreases items, n,
{
    if 0 < n <= items.len() {
        lemma_items_clipped(items, base, depth, n - 1);
        assert(decreases_to!(items => items[n - 1]));
        lemma_walk_clipped(items[n - 1], index_path(base, (n - 1) as nat), depth + 1);
        lemma_clipped_add(
            walk_items(items, base, depth, n - 1),
            walk(items[n - 1], index_path(base, (n - 1) as nat), depth + 1),
        );
    }
}

proof fn lemma_entries_clipped(
    es: Seq<(String, JsonValue)>,
    ord: Seq<(Seq<char>, int)>,
    base: Seq<char>,
    depth: nat,
    n: int,
)
    ensures
        texts_clipped(walk_entries(es, ord, base, depth, n)),
    decreases es, n,
{
    if 0 < n <= ord.len() {
        lemma_entries_clipped(es, ord, base, depth, n - 1);
        let k = ord[n - 1].0;
        let j = ord[n - 1].1;
        let path = child_path(base, k);
        let keyed = if under_properties(base) {
            seq![(path + "#key"@, clip(k))]
        } else {
            Seq::empty()
        };
        let sub = if 0 <= j < es.len() {
            walk(es[j].1, path, depth + 1)
        } else {
            Seq::empty()
        };
        assert(texts_clipped(keyed));
        if 0 <= j < es.len() {
            assert(decreases_to!(es => es[j]));
            assert(decreases_to!(es[j] => es[j].1));
            lemma_walk_clipped(es[j].1, path, depth + 1);
        }
        assert(texts_clipped(sub));
        lemma_clipped_add(walk_entries(es, ord, base, depth, n - 1), keyed);
        lemma_clipped_add(walk_entries(es, ord, base, depth, n - 1) + keyed, sub);
    }
}

proof fn lemma_extra_clipped(es: Seq<(String, JsonValue)>, base: Seq<char>, n: int)
    ensures
        texts_clipped(extra_walk(es, base, n)),
    decreases n,
{
    if 0 < n <= es.len() {
        lemma_extra_clipped(es, base, n - 1);
        lemma_walk_clipped(es[n - 1].1, base + "."@ + es[n - 1].0@, 0);
        lemma_clipped_add(extra_walk(es, base, n - 1), walk(es[n - 1].1, base + "."@ + es[n - 1].0@, 0));
    }
}

/// The leaves collected for one tool are bounded: at most
/// `MAX_STRING_LEAVES` of them, none longer than `MAX_LEAF_CHARS`.
pub proof fn lemma_tool_leaves_bounded(tool: ToolDef, idx: nat)
    ensures
        capped(tool_pairs(tool, idx)).len() <= MAX_STRING_LEAVES,
        texts_clipped(capped(tool_pairs(tool, idx))),
{
    let base = tool_base(idx);
    let a = seq![(base + ".name"@, clip(tool.name@))];
    let b = opt_pair(tool.title, base + ".title"@);
    let c = opt_pair(tool.description, base + ".description"@);
    let d = opt_walk(tool.input_schema, base + ".inputSchema"@);
    let e = opt_walk(tool.output_schema, base + ".outputSchema"@);
    let f = extra_walk(tool.extra@, base, tool.extra@.len() as int);
    assert(texts_clipped(a));
    assert(texts_clipped(b));
    assert(texts_clipped(c));
    match tool.input_schema {
        Some(v) => lemma_walk_clipped(v, base + ".inputSchema"@, 0),
        None => {},
    }
    match tool.output_schema {
        Some(v) => lemma_walk_clipped(v, base + ".outputSchema"@, 0),
        None => {},
    }
    lemma_extra_clipped(tool.extra@, base, tool.extra@.len() as int);
    lemma_clipped_add(a, b);
    lemma_clipped_add(a + b, c);
    lemma_clipped_add(a + b + c, d);
    lemma_clipped_add(a + b + c + d, e);
    lemma_clipped_add(a + b + c + d + e, f);
    let ps = tool_pairs(tool, idx);
    assert(ps == a + b + c + d + e + f);
    if ps.len() > MAX_STRING_LEAVES {
        assert forall|i: int| 0 <= i < capped(ps).len() implies (#[trigger] capped(ps)[i]).1.len() <= MAX_LEAF_CHARS by {
            assert(capped(ps)[i] == ps[i]);
        }
    }
}

} // verus!
