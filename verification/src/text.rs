//! Character-level text utilities used by the scanners.
//!
//! Strings are reasoned about through their view, the sequence of their
//! Unicode scalar values (`Seq<char>`).
use vstd::prelude::*;

verus! {

/// Appends one character to a string (`String::push`).
#[verifier::external_body]
pub(crate) fn push_char(s: &mut String, c: char)
    ensures
        final(s)@ == old(s)@.push(c),
{
    s.push(c);
}

/// The characters of `s`, in order.
pub fn chars_of(s: &str) -> (r: Vec<char>)
    ensures
        r@ == s@,
{
    let mut r: Vec<char> = Vec::new();
    for c in it: s.chars()
        invariant
            r@ == it.seq().take(it.index() as int),
            it.seq() == s@,
    {
        r.push(c);
    }
    r
}

/// A string holding exactly the given characters.
pub fn string_from_chars(v: &[char]) -> (r: String)
    ensures
        r@ == v@,
{
    let mut r = String::new();
    let n = v.len();
    for i in 0..n
        invariant
            n == v@.len(),
            r@ == v@.take(i as int),
    {
        push_char(&mut r, v[i]);
        assert(v@.take(i + 1) == v@.take(i as int).push(v@[i as int]));
    }
    assert(v@.take(n as int) == v@);
    r
}

/// `a + b` as a new string.
pub fn concat2(a: &str, b: &str) -> (r: String)
    ensures
        r@ == a@ + b@,
{
    let mut r = a.to_owned();
    r.append(b);
    r
}

/// `a + b + c` as a new string.
pub fn concat3(a: &str, b: &str, c: &str) -> (r: String)
    ensures
        r@ == a@ + b@ + c@,
{
    let mut r = a.to_owned();
    r.append(b);
    r.append(c);
    r
}

/// Equality of two strings by their characters.
pub fn str_eq(a: &str, b: &str) -> (r: bool)
    ensures
        r == (a@ == b@),
{
    let x = a.to_owned();
    let y = b.to_owned();
    x == y
}

// ---------------------------------------------------------------------
// Whitespace
// ---------------------------------------------------------------------

/// The Unicode `White_Space` property, which `char::is_whitespace` tests.
pub open spec fn is_ws(c: char) -> bool {
    let u = c as u32;
    ||| (0x09 <= u && u <= 0x0d)
    ||| u == 0x20
    ||| u == 0x85
    ||| u == 0xa0
    ||| u == 0x1680
    ||| (0x2000 <= u && u <= 0x200a)
    ||| u == 0x2028
    ||| u == 0x2029
    ||| u == 0x202f
    ||| u == 0x205f
    ||| u == 0x3000
}

/// Whether `c` is Unicode whitespace.
pub fn is_whitespace(c: char) -> (r: bool)
    ensures
        r == is_ws(c),
{
    let u = c as u32;
    (0x09 <= u && u <= 0x0d) || u == 0x20 || u == 0x85 || u == 0xa0 || u == 0x1680 || (0x2000
        <= u && u <= 0x200a) || u == 0x2028 || u == 0x2029 || u == 0x202f || u == 0x205f || u
        == 0x3000
}

/// `s` without its leading and trailing whitespace (`str::trim`).
pub open spec fn trim_end_len(s: Seq<char>) -> nat
    decreases s.len(),
{
    if s.len() == 0 {
        0
    } else if is_ws(s.last()) {
        trim_end_len(s.drop_last())
    } else {
        s.len()
    }
}

/// Number of leading whitespace characters of `s`.
pub open spec fn lead_ws_len(s: Seq<char>) -> nat
    decreases s.len(),
{
    if s.len() == 0 {
        0
    } else if is_ws(s[0]) {
        1 + lead_ws_len(s.drop_first())
    } else {
        0
    }
}

/// `s` with trailing whitespace removed.
pub open spec fn trim_end(s: Seq<char>) -> Seq<char> {
    s.take(trim_end_len(s) as int)
}

/// `s` with leading and trailing whitespace removed.
pub open spec fn trim(s: Seq<char>) -> Seq<char> {
    let e = trim_end(s);
    e.skip(lead_ws_len(e) as int)
}

proof fn lemma_trim_end_len(s: Seq<char>)
    ensures
        trim_end_len(s) <= s.len(),
        forall|k: int| trim_end_len(s) <= k < s.len() ==> is_ws(#[trigger] s[k]),
        trim_end_len(s) > 0 ==> !is_ws(s[trim_end_len(s) - 1]),
    decreases s.len(),
{
    if s.len() > 0 && is_ws(s.last()) {
        lemma_trim_end_len(s.drop_last());
        assert forall|k: int| trim_end_len(s) <= k < s.len() implies is_ws(#[trigger] s[k]) by {
            if k < s.len() - 1 {
                assert(s[k] == s.drop_last()[k]);
            }
        }
    }
}

proof fn lemma_lead_ws_len(s: Seq<char>)
    ensures
        lead_ws_len(s) <= s.len(),
        forall|k: int| 0 <= k < lead_ws_len(s) ==> is_ws(#[trigger] s[k]),
        lead_ws_len(s) < s.len() ==> !is_ws(s[lead_ws_len(s) as int]),
    decreases s.len(),
{
    if s.len() > 0 && is_ws(s[0]) {
        lemma_lead_ws_len(s.drop_first());
        assert forall|k: int| 0 <= k < lead_ws_len(s) implies is_ws(#[trigger] s[k]) by {
            if k > 0 {
                assert(s[k] == s.drop_first()[k - 1]);
            }
        }
    }
}

/// Length of `s` once trailing whitespace is dropped.
fn trim_end_count(s: &[char]) -> (n: usize)
    ensures
        n == trim_end_len(s@),
{
    let mut n = s.len();
    proof {
        assert(s@.take(n as int) == s@);
    }
    while n > 0 && is_whitespace(s[n - 1])
        invariant
            n <= s@.len(),
            trim_end_len(s@.take(n as int)) == trim_end_len(s@),
        decreases n,
    {
        assert(s@.take(n as int).drop_last() == s@.take(n - 1));
        n = n - 1;
    }
    n
}

/// Number of leading whitespace characters of `s`.
fn lead_ws_count(s: &[char]) -> (n: usize)
    ensures
        n == lead_ws_len(s@),
{
    let mut n: usize = 0;
    assert(s@.skip(0) == s@);
    while n < s.len() && is_whitespace(s[n])
        invariant
            n <= s@.len(),
            lead_ws_len(s@) == n + lead_ws_len(s@.skip(n as int)),
        decreases s@.len() - n,
    {
        assert(s@.skip(n as int).drop_first() == s@.skip(n + 1));
        n = n + 1;
    }
    n
}

/// `str::trim_end`.
pub fn trim_end_str(s: &str) -> (r: String)
    ensures
        r@ == trim_end(s@),
{
    let cs = chars_of(s);
    let n = trim_end_count(cs.as_slice());
    proof {
        lemma_trim_end_len(s@);
    }
    let t = slice_take(cs.as_slice(), n);
    string_from_chars(t.as_slice())
}

/// `str::trim`.
pub fn trim_str(s: &str) -> (r: String)
    ensures
        r@ == trim(s@),
{
    let cs = chars_of(s);
    let n = trim_end_count(cs.as_slice());
    proof {
        lemma_trim_end_len(s@);
    }
    let e = slice_take(cs.as_slice(), n);
    let k = lead_ws_count(e.as_slice());
    proof {
        lemma_lead_ws_len(e@);
    }
    let t = slice_skip(e.as_slice(), k);
    string_from_chars(t.as_slice())
}

/// The first `n` elements of a slice.
pub fn slice_take<T: Copy>(s: &[T], n: usize) -> (r: Vec<T>)
    requires
        n <= s@.len(),
    ensures
        r@ == s@.take(n as int),
{
    let mut r: Vec<T> = Vec::new();
    for i in 0..n
        invariant
            n <= s@.len(),
            r@ == s@.take(i as int),
    {
        r.push(s[i]);
        assert(s@.take(i + 1) == s@.take(i as int).push(s@[i as int]));
    }
    r
}

/// All elements of a slice from position `n` on.
pub fn slice_skip<T: Copy>(s: &[T], n: usize) -> (r: Vec<T>)
    requires
        n <= s@.len(),
    ensures
        r@ == s@.skip(n as int),
{
    let mut r: Vec<T> = Vec::new();
    let len = s.len();
    for i in n..len
        invariant
            n <= len,
            len == s@.len(),
            r@ == s@.subrange(n as int, i as int),
    {
        r.push(s[i]);
        assert(s@.subrange(n as int, i + 1) == s@.subrange(n as int, i as int).push(s@[i as int]));
    }
    r
}


// ---------------------------------------------------------------------
// ASCII case folding
// ---------------------------------------------------------------------

/// `char::to_ascii_lowercase`.
pub open spec fn ascii_lower(c: char) -> char {
    if 'A' <= c && c <= 'Z' {
        ((c as u32) + 32) as char
    } else {
        c
    }
}

/// `str::to_ascii_lowercase`.
pub open spec fn lower(s: Seq<char>) -> Seq<char> {
    s.map_values(|c: char| ascii_lower(c))
}

/// Lower-cases one character.
pub fn lower_char(c: char) -> (r: char)
    ensures
        r == ascii_lower(c),
{
    if 'A' <= c && c <= 'Z' {
        let u = (c as u32) + 32;
        let r = char_from_ascii_range(u);
        r
    } else {
        c
    }
}

/// The character with code `u`, for `u` in `a..=z`.
fn char_from_ascii_range(u: u32) -> (c: char)
    requires
        97 <= u <= 122,
    ensures
        c as u32 == u,
{
    let b = u as u8;
    b as char
}

/// `str::to_ascii_lowercase`.
pub fn to_ascii_lowercase(s: &str) -> (r: String)
    ensures
        r@ == lower(s@),
{
    let mut r = String::new();
    for c in it: s.chars()
        invariant
            it.seq() == s@,
            r@ == lower(s@.take(it.index() as int)),
    {
        push_char(&mut r, lower_char(c));
        assert(lower(s@.take(it.index() + 1)) == lower(s@.take(it.index() as int)).push(
            ascii_lower(s@[it.index() as int]),
        ));
    }
    assert(s@.take(s@.len() as int) == s@);
    r
}

/// Lower-cased characters of `s`.
pub fn lower_chars(s: &str) -> (r: Vec<char>)
    ensures
        r@ == lower(s@),
{
    let mut r: Vec<char> = Vec::new();
    for c in it: s.chars()
        invariant
            it.seq() == s@,
            r@ == lower(s@.take(it.index() as int)),
    {
        r.push(lower_char(c));
        assert(lower(s@.take(it.index() + 1)) == lower(s@.take(it.index() as int)).push(
            ascii_lower(s@[it.index() as int]),
        ));
    }
    assert(s@.take(s@.len() as int) == s@);
    r
}

// ---------------------------------------------------------------------
// Substrings
// ---------------------------------------------------------------------

/// `p` occurs in `t` starting at position `i`.
pub open spec fn occurs_at(t: Seq<char>, p: Seq<char>, i: int) -> bool {
    0 <= i && i + p.len() <= t.len() && t.subrange(i, i + p.len()) == p
}

/// `p` is a substring of `t` (`str::contains`).
pub open spec fn has_sub(t: Seq<char>, p: Seq<char>) -> bool {
    exists|i: int| occurs_at(t, p, i)
}

/// `p` is a prefix of `t` (`str::starts_with`).
pub open spec fn is_prefix(p: Seq<char>, t: Seq<char>) -> bool {
    p.len() <= t.len() && t.take(p.len() as int) == p
}

/// `p` is a suffix of `t` (`str::ends_with`).
pub open spec fn is_suffix(p: Seq<char>, t: Seq<char>) -> bool {
    p.len() <= t.len() && t.skip(t.len() - p.len()) == p
}

/// Whether `p` occurs in `t` at position `i`.
fn matches_at(t: &[char], p: &[char], i: usize) -> (r: bool)
    requires
        i + p@.len() <= t@.len(),
    ensures
        r == occurs_at(t@, p@, i as int),
{
    let n = p.len();
    let mut j: usize = 0;
    while j < n
        invariant
            n == p@.len(),
            i + n <= t.len(),
            j <= n,
            forall|k: int| 0 <= k < j ==> t@[i + k] == p@[k],
        decreases n - j,
    {
        if t[i + j] != p[j] {
            assert(t@.subrange(i as int, i + n)[j as int] != p@[j as int]);
            return false;
        }
        j = j + 1;
    }
    assert(t@.subrange(i as int, i + n) =~= p@);
    true
}

/// Whether the character sequence `p` occurs in `t`.
pub fn contains_chars(t: &[char], p: &[char]) -> (r: bool)
    ensures
        r == has_sub(t@, p@),
{
    if p.len() == 0 {
        assert(t@.subrange(0, 0) =~= p@);
        assert(occurs_at(t@, p@, 0));
        return true;
    }
    if p.len() > t.len() {
        return false;
    }
    let last = t.len() - p.len();
    for i in 0..last + 1
        invariant
            last + p@.len() == t@.len(),
            p@.len() > 0,
            forall|k: int| 0 <= k < i ==> !occurs_at(t@, p@, k),
    {
        if matches_at(t, p, i) {
            return true;
        }
    }
    false
}

/// `str::contains` for a string pattern.
pub fn contains_str(t: &str, p: &str) -> (r: bool)
    ensures
        r == has_sub(t@, p@),
{
    let tc = chars_of(t);
    let pc = chars_of(p);
    contains_chars(tc.as_slice(), pc.as_slice())
}

/// Whether `c` occurs in `t`.
pub fn contains_char(t: &str, c: char) -> (r: bool)
    ensures
        r == t@.contains(c),
{
    for d in it: t.chars()
        invariant
            it.seq() == t@,
            forall|k: int| 0 <= k < it.index() ==> t@[k] != c,
    {
        if d == c {
            assert(t@[it.index() as int] == c);
            return true;
        }
    }
    false
}

/// `str::ends_with`.
pub fn ends_with_chars(t: &[char], p: &[char]) -> (r: bool)
    ensures
        r == is_suffix(p@, t@),
{
    if p.len() > t.len() {
        return false;
    }
    let r = matches_at(t, p, t.len() - p.len());
    assert(t@.skip(t@.len() - p@.len()) == t@.subrange(t@.len() - p@.len(), t@.len() as int));
    r
}

/// `str::ends_with`.
pub fn ends_with_str(t: &str, p: &str) -> (r: bool)
    ensures
        r == is_suffix(p@, t@),
{
    let tc = chars_of(t);
    let pc = chars_of(p);
    ends_with_chars(tc.as_slice(), pc.as_slice())
}

/// `str::starts_with`.
pub fn starts_with_chars(t: &[char], p: &[char]) -> (r: bool)
    ensures
        r == is_prefix(p@, t@),
{
    if p.len() > t.len() {
        return false;
    }
    let r = matches_at(t, p, 0);
    assert(t@.take(p@.len() as int) == t@.subrange(0, p@.len() as int));
    r
}

/// `str::starts_with`.
pub fn starts_with_str(t: &str, p: &str) -> (r: bool)
    ensures
        r == is_prefix(p@, t@),
{
    let tc = chars_of(t);
    let pc = chars_of(p);
    starts_with_chars(tc.as_slice(), pc.as_slice())
}

// ---------------------------------------------------------------------
// Decimal numbers
// ---------------------------------------------------------------------

/// The decimal digit character for `d < 10`.
pub open spec fn digit(d: nat) -> char {
    ((48 + d) as u32) as char
}

/// Decimal text of `n` (as `{}` formats an unsigned integer).
pub open spec fn decimal(n: nat) -> Seq<char>
    decreases n,
{
    if n < 10 {
        seq![digit(n)]
    } else {
        decimal(n / 10).push(digit(n % 10))
    }
}

/// `n` zeros.
pub open spec fn zeros(n: nat) -> Seq<char> {
    Seq::new(n, |i: int| '0')
}

/// Decimal text of `n`, left-padded with zeros to width 3 (`{:03}`).
pub open spec fn decimal3(n: nat) -> Seq<char> {
    let d = decimal(n);
    if d.len() >= 3 {
        d
    } else {
        zeros((3 - d.len()) as nat) + d
    }
}

pub proof fn lemma_decimal_len(n: nat)
    ensures
        decimal(n).len() >= 1,
        n < 10 ==> decimal(n).len() == 1,
        10 <= n < 100 ==> decimal(n).len() == 2,
        n >= 100 ==> decimal(n).len() >= 3,
    decreases n,
{
    if n >= 10 {
        lemma_decimal_len(n / 10);
    }
}

/// Different numbers have different decimal texts.
pub proof fn lemma_decimal_injective(a: nat, b: nat)
    requires
        decimal(a) == decimal(b),
    ensures
        a == b,
    decreases a,
{
    lemma_decimal_len(a);
    lemma_decimal_len(b);
    if a < 10 && b < 10 {
        assert(decimal(a)[0] == digit(a));
        assert(decimal(b)[0] == digit(b));
    } else if a >= 10 && b >= 10 {
        lemma_decimal_len(a / 10);
        lemma_decimal_len(b / 10);
        assert(decimal(a).last() == digit(a % 10));
        assert(decimal(b).last() == digit(b % 10));
        assert(decimal(a / 10) =~= decimal(a).drop_last());
        assert(decimal(b / 10) =~= decimal(b).drop_last());
        lemma_decimal_injective(a / 10, b / 10);
    } else {
        if a < 10 {
            lemma_decimal_len(b / 10);
            assert(decimal(b).len() == decimal(b / 10).len() + 1);
        } else {
            lemma_decimal_len(a / 10);
            assert(decimal(a).len() == decimal(a / 10).len() + 1);
        }
    }
}

fn digit_char(d: usize) -> (c: char)
    requires
        d < 10,
    ensures
        c == digit(d as nat),
{
    let b = (48 + d) as u8;
    b as char
}

/// Appends the decimal text of `n` to `out`.
pub fn push_decimal(out: &mut String, n: usize)
    ensures
        final(out)@ == old(out)@ + decimal(n as nat),
    decreases n,
{
    if n >= 10 {
        push_decimal(out, n / 10);
    }
    push_char(out, digit_char(n % 10));
}

fn digit_char_u64(d: u64) -> (c: char)
    requires
        d < 10,
    ensures
        c == digit(d as nat),
{
    let b = (48 + d) as u8;
    b as char
}

/// Appends the decimal text of a `u64` to `out`.
pub fn push_decimal_u64(out: &mut String, n: u64)
    ensures
        final(out)@ == old(out)@ + decimal(n as nat),
    decreases n,
{
    if n >= 10 {
        push_decimal_u64(out, n / 10);
    }
    push_char(out, digit_char_u64(n % 10));
}

/// `c` is an ASCII digit.
pub open spec fn is_digit(c: char) -> bool {
    '0' <= c && c <= '9'
}

/// The number written by the ASCII digits `s`.
pub open spec fn digits_value(s: Seq<char>) -> nat
    decreases s.len(),
{
    if s.len() == 0 {
        0
    } else {
        digits_value(s.drop_last()) * 10 + ((s.last() as u32) - 48) as nat
    }
}

/// Every character of `d` is an ASCII digit.
pub open spec fn all_digits(d: Seq<char>) -> bool {
    forall|i: int| 0 <= i < d.len() ==> is_digit(#[trigger] d[i])
}

/// `s` without one leading `+`.
pub open spec fn unsigned_digits(s: Seq<char>) -> Seq<char> {
    if s.len() > 0 && s[0] == '+' {
        s.drop_first()
    } else {
        s
    }
}

/// What `str::parse::<usize>` accepts: an optional `+`, then one or more
/// ASCII digits whose value fits in `usize`.
pub open spec fn parse_usize_spec(s: Seq<char>) -> Option<usize> {
    let d = unsigned_digits(s);
    if d.len() > 0 && all_digits(d) && digits_value(d) <= usize::MAX {
        Some(digits_value(d) as usize)
    } else {
        None
    }
}

/// Decimal parsing as `str::parse::<usize>` does it.
pub fn parse_usize(s: &str) -> (r: Option<usize>)
    ensures
        r == parse_usize_spec(s@),
{
    let cs = chars_of(s);
    let start: usize = if cs.len() > 0 && cs[0] == '+' {
        1
    } else {
        0
    };
    let ghost d = unsigned_digits(s@);
    assert(d =~= cs@.skip(start as int));
    if start >= cs.len() {
        return None;
    }
    let n = cs.len();
    let mut value: usize = 0;
    let mut overflow = false;
    let mut i = start;
    while i < n
        invariant
            cs@ == s@,
            n == cs@.len(),
            start <= i <= n,
            d == cs@.skip(start as int),
            d == unsigned_digits(s@),
            forall|k: int| start <= k < i ==> is_digit(#[trigger] cs@[k]),
            overflow ==> digits_value(cs@.subrange(start as int, i as int)) > usize::MAX,
            !overflow ==> value == digits_value(cs@.subrange(start as int, i as int)),
        decreases n - i,
    {
        let c = cs[i];
        if !('0' <= c && c <= '9') {
            assert(!is_digit(d[i - start]));
            assert(!all_digits(d));
            return None;
        }
        let dv = (c as u32 - 48) as usize;
        assert(cs@.subrange(start as int, i + 1).drop_last() =~= cs@.subrange(start as int, i as int));
        if !overflow {
            if value > (usize::MAX - dv) / 10 {
                overflow = true;
                assert(value * 10 + dv > usize::MAX) by (nonlinear_arith)
                    requires
                        value > (usize::MAX - dv) / 10,
                        dv < 10,
                ;
            } else {
                assert(value * 10 + dv <= usize::MAX) by (nonlinear_arith)
                    requires
                        value <= (usize::MAX - dv) / 10,
                        dv < 10,
                ;
                value = value * 10 + dv;
            }
        }
        i = i + 1;
    }
    assert(cs@.subrange(start as int, n as int) =~= d);
    if overflow {
        None
    } else {
        Some(value)
    }
}

/// Decimal text of `n`.
pub fn decimal_string(n: usize) -> (r: String)
    ensures
        r@ == decimal(n as nat),
{
    let mut r = String::new();
    push_decimal(&mut r, n);
    r
}

/// Decimal text of `n`, zero-padded to three digits.
pub fn decimal3_string(n: usize) -> (r: String)
    ensures
        r@ == decimal3(n as nat),
{
    let mut r = String::new();
    proof {
        lemma_decimal_len(n as nat);
    }
    if n < 10 {
        push_char(&mut r, '0');
        push_char(&mut r, '0');
        assert(zeros(2) =~= seq!['0', '0']);
    } else if n < 100 {
        push_char(&mut r, '0');
        assert(zeros(1) =~= seq!['0']);
    }
    push_decimal(&mut r, n);
    r
}

// ---------------------------------------------------------------------
// Ordering of strings
// ---------------------------------------------------------------------

/// Lexicographic order on code points; this is the order of `String`'s
/// `Ord` (byte order of UTF-8 agrees with code point order).
pub open spec fn str_lt(a: Seq<char>, b: Seq<char>) -> bool
    decreases a.len(),
{
    if a.len() == 0 {
        b.len() > 0
    } else if b.len() == 0 {
        false
    } else if a[0] != b[0] {
        (a[0] as u32) < (b[0] as u32)
    } else {
        str_lt(a.drop_first(), b.drop_first())
    }
}

pub proof fn lemma_str_lt_irrefl(a: Seq<char>)
    ensures
        !str_lt(a, a),
    decreases a.len(),
{
    if a.len() > 0 {
        lemma_str_lt_irrefl(a.drop_first());
    }
}

pub proof fn lemma_str_lt_trans(a: Seq<char>, b: Seq<char>, c: Seq<char>)
    requires
        str_lt(a, b),
        str_lt(b, c),
    ensures
        str_lt(a, c),
    decreases a.len(),
{
    if a.len() > 0 && b.len() > 0 && c.len() > 0 && a[0] == b[0] && b[0] == c[0] {
        lemma_str_lt_trans(a.drop_first(), b.drop_first(), c.drop_first());
    }
}

pub proof fn lemma_str_lt_total(a: Seq<char>, b: Seq<char>)
    ensures
        str_lt(a, b) || str_lt(b, a) || a == b,
    decreases a.len(),
{
    if a.len() > 0 && b.len() > 0 && a[0] == b[0] {
        lemma_str_lt_total(a.drop_first(), b.drop_first());
        if a.drop_first() == b.drop_first() {
            assert(a =~= seq![a[0]] + a.drop_first());
            assert(b =~= seq![b[0]] + b.drop_first());
        }
    } else if a.len() > 0 && b.len() > 0 {
        if (a[0] as u32) == (b[0] as u32) {
            vstd::utf8::char_u32_cast(a[0], a[0] as u32);
            vstd::utf8::char_u32_cast(b[0], b[0] as u32);
        }
    } else if a.len() == 0 && b.len() == 0 {
        assert(a =~= b);
    }
}

/// Whether `a` sorts strictly before `b`.
pub fn chars_lt(a: &[char], b: &[char]) -> (r: bool)
    ensures
        r == str_lt(a@, b@),
{
    let mut i: usize = 0;
    assert(a@.skip(0) == a@);
    assert(b@.skip(0) == b@);
    while i < a.len() && i < b.len() && a[i] == b[i]
        invariant
            i <= a@.len(),
            i <= b@.len(),
            str_lt(a@, b@) == str_lt(a@.skip(i as int), b@.skip(i as int)),
        decreases a@.len() - i,
    {
        assert(a@.skip(i as int).drop_first() == a@.skip(i + 1));
        assert(b@.skip(i as int).drop_first() == b@.skip(i + 1));
        i = i + 1;
    }
    if i == a.len() {
        i < b.len()
    } else if i == b.len() {
        false
    } else {
        (a[i] as u32) < (b[i] as u32)
    }
}

/// Whether `a` sorts strictly before `b`.
pub fn str_less(a: &str, b: &str) -> (r: bool)
    ensures
        r == str_lt(a@, b@),
{
    let x = chars_of(a);
    let y = chars_of(b);
    chars_lt(x.as_slice(), y.as_slice())
}


// ---------------------------------------------------------------------
// Phrase lists
// ---------------------------------------------------------------------

/// The texts of a list of string slices.
pub open spec fn str_views(v: Seq<&str>) -> Seq<Seq<char>> {
    v.map_values(|s: &str| s@)
}

/// Some phrase of `ps` occurs in `t`.
pub open spec fn any_sub(t: Seq<char>, ps: Seq<Seq<char>>) -> bool {
    exists|i: int| 0 <= i < ps.len() && has_sub(t, #[trigger] ps[i])
}

/// How many of the first `n` phrases of `ps` occur in `t`.
pub open spec fn count_subs(t: Seq<char>, ps: Seq<Seq<char>>, n: int) -> nat
    decreases n,
{
    if n <= 0 || n > ps.len() {
        0
    } else {
        count_subs(t, ps, n - 1) + if has_sub(t, ps[n - 1]) {
            1nat
        } else {
            0nat
        }
    }
}

/// Index of the first phrase of `ps[i..]` that occurs in `t`, or `ps.len()`.
pub open spec fn first_sub_from(t: Seq<char>, ps: Seq<Seq<char>>, i: int) -> int
    decreases ps.len() - i,
{
    if i < 0 || i >= ps.len() {
        ps.len() as int
    } else if has_sub(t, ps[i]) {
        i
    } else {
        first_sub_from(t, ps, i + 1)
    }
}

/// Whether one of the phrases occurs in `t`.
pub fn contains_any(t: &[char], ps: &Vec<&str>) -> (r: bool)
    ensures
        r == any_sub(t@, str_views(ps@)),
{
    let ghost v = str_views(ps@);
    let n = ps.len();
    for i in 0..n
        invariant
            n == ps@.len(),
            v == str_views(ps@),
            forall|k: int| 0 <= k < i ==> !has_sub(t@, #[trigger] v[k]),
    {
        let p = chars_of(ps[i]);
        assert(v[i as int] == ps@[i as int]@);
        if contains_chars(t, p.as_slice()) {
            return true;
        }
    }
    false
}

/// How many of the phrases occur in `t`.
pub fn count_contained(t: &[char], ps: &Vec<&str>) -> (r: usize)
    ensures
        r == count_subs(t@, str_views(ps@), ps@.len() as int),
{
    let ghost v = str_views(ps@);
    let n = ps.len();
    let mut c: usize = 0;
    for i in 0..n
        invariant
            n == ps@.len(),
            v == str_views(ps@),
            c == count_subs(t@, v, i as int),
            c <= i,
    {
        let p = chars_of(ps[i]);
        assert(v[i as int] == ps@[i as int]@);
        if contains_chars(t, p.as_slice()) {
            c = c + 1;
        }
    }
    c
}

/// Index of the first phrase that occurs in `t`, or the list's length.
pub fn first_contained(t: &[char], ps: &Vec<&str>) -> (r: usize)
    ensures
        r == first_sub_from(t@, str_views(ps@), 0),
{
    let ghost v = str_views(ps@);
    let n = ps.len();
    let mut i: usize = 0;
    while i < n
        invariant
            n == ps@.len(),
            v == str_views(ps@),
            i <= n,
            first_sub_from(t@, v, 0) == first_sub_from(t@, v, i as int),
        decreases n - i,
    {
        let p = chars_of(ps[i]);
        assert(v[i as int] == ps@[i as int]@);
        if contains_chars(t, p.as_slice()) {
            return i;
        }
        i = i + 1;
    }
    n
}

} // verus!
