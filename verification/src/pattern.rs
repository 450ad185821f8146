//! Regular-expression matching, through the `regex` crate.
use vstd::prelude::*;

verus! {

/// Whether `pattern` is a regular expression that `regex::Regex::new` accepts.
pub uninterp spec fn regex_valid(pattern: Seq<char>) -> bool;

/// Whether the compiled `pattern` matches somewhere in `text` (`Regex::is_match`).
pub uninterp spec fn regex_matches(pattern: Seq<char>, text: Seq<char>) -> bool;

/// For each successive non-overlapping match of `pattern` in `text`, the
/// text of capture group `group`, if that group took part in the match
/// (`Regex::captures_iter` and `Captures::get`).
pub uninterp spec fn regex_captures(pattern: Seq<char>, text: Seq<char>, group: nat) -> Seq<Option<Seq<char>>>;

/// `pattern` compiles and matches somewhere in `text`.
pub open spec fn regex_hit(pattern: Seq<char>, text: Seq<char>) -> bool {
    regex_valid(pattern) && regex_matches(pattern, text)
}

/// `regex::Regex::new(pattern)` and then `Regex::is_match(text)`:
/// `None` when the pattern does not compile, otherwise whether it matches.
#[verifier::external_body]
pub(crate) fn regex_is_match(pattern: &str, text: &str) -> (r: Option<bool>)
    ensures
        r == (if regex_valid(pattern@) {
            Some(regex_matches(pattern@, text@))
        } else {
            None
        }),
{
    match regex::Regex::new(pattern) {
        Ok(re) => Some(re.is_match(text)),
        Err(_) => None,
    }
}

/// The texts of optional captures.
pub open spec fn opt_strs_view(v: Seq<Option<String>>) -> Seq<Option<Seq<char>>> {
    v.map_values(|o: Option<String>| match o {
        Some(s) => Some(s@),
        None => None,
    })
}

/// `regex::Regex::new(pattern)` and then `Regex::captures_iter(text)`,
/// taking capture group `group` of each match: `None` when the pattern
/// does not compile.
#[verifier::external_body]
pub(crate) fn regex_capture_group(pattern: &str, text: &str, group: usize) -> (r: Option<Vec<Option<String>>>)
    ensures
        regex_valid(pattern@) <==> r is Some,
        r matches Some(v) ==> opt_strs_view(v@) == regex_captures(pattern@, text@, group as nat),
{
    match regex::Regex::new(pattern) {
        Ok(re) => {
            let mut v = Vec::new();
            for c in re.captures_iter(text) {
                v.push(c.get(group).map(|m| m.as_str().to_string()));
            }
            Some(v)
        },
        Err(_) => None,
    }
}

/// Whether `pattern` compiles and matches in `text`.
pub fn pattern_hit(pattern: &str, text: &str) -> (r: bool)
    ensures
        r == regex_hit(pattern@, text@),
{
    match regex_is_match(pattern, text) {
        Some(b) => b,
        None => false,
    }
}

} // verus!
