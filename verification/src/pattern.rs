//! Extension patterns of custom toolchains, matched by the `regex` crate.

use regex::Regex;
use vstd::prelude::*;

verus! {

/// Whether `regex::Regex::new` accepts `pattern`: it is a regular expression
/// in the syntax of the `regex` crate and compiles within the default size
/// limit.
pub uninterp spec fn regex_compiles(pattern: Seq<char>) -> bool;

/// Whether the regular expression compiled from `pattern` matches somewhere in
/// `text`, as `regex::Regex::is_match` reports it.
pub uninterp spec fn regex_is_match(pattern: Seq<char>, text: Seq<char>) -> bool;

/// Calls `regex::Regex::new` and says whether it returned a regular
/// expression. The result depends on the pattern alone.
#[verifier::external_body]
pub(crate) fn pattern_compiles(pattern: &str) -> (ok: bool)
    ensures
        ok == regex_compiles(pattern@),
{
    Regex::new(pattern).is_ok()
}

/// Compiles `pattern` with `regex::Regex::new` and asks `regex::Regex::is_match`
/// whether it matches somewhere in `text`. A pattern that does not compile
/// matches nothing. The result depends on the pattern and the text alone.
#[verifier::external_body]
pub(crate) fn pattern_is_match(pattern: &str, text: &str) -> (found: bool)
    ensures
        found == (regex_compiles(pattern@) && regex_is_match(pattern@, text@)),
{
    match Regex::new(pattern) {
        Ok(re) => re.is_match(text),
        Err(_) => false,
    }
}

/// The pattern that matches a whole text exactly where `pattern` matches all
/// of it: `pattern` in a group between the anchors `^` and `$`.
pub open spec fn anchored(pattern: Seq<char>) -> Seq<char> {
    seq!['^', '('] + pattern + seq![')', '$']
}

/// Puts `pattern` in a group between the anchors `^` and `$`.
pub fn anchor(pattern: &str) -> (r: String)
    ensures
        r@ == anchored(pattern@),
{
    let mut out: Vec<char> = Vec::new();
    out.push('^');
    out.push('(');
    crate::text::push_str(&mut out, pattern);
    out.push(')');
    out.push('$');
    assert(out@ =~= anchored(pattern@));
    crate::text::string_of(&out)
}

} // verus!
