//! Case-insensitive substring matching of entry names against a pattern.

use vstd::prelude::*;

verus! {

/// The sequence of characters that `str::to_lowercase` produces for `s`.
pub uninterp spec fn lower_of(s: Seq<char>) -> Seq<char>;

/// `needle` occurs contiguously somewhere in `hay`.
pub open spec fn is_substring(needle: Seq<char>, hay: Seq<char>) -> bool {
    exists|i: int|
        0 <= i && i + needle.len() <= hay.len() && #[trigger] hay.subrange(i, i + needle.len())
            == needle
}

/// The empty sequence is a substring of every sequence.
pub proof fn lemma_empty_needle(needle: Seq<char>, hay: Seq<char>)
    requires
        needle.len() == 0,
    ensures
        is_substring(needle, hay),
{
    assert(hay.subrange(0, 0 + needle.len() as int) =~= needle);
}

/// A name matches a pattern when the lower-cased pattern occurs in the
/// lower-cased name.
pub open spec fn name_matches(name: Seq<char>, pattern: Seq<char>) -> bool {
    is_substring(lower_of(pattern), lower_of(name))
}

/// Relies on `str::to_lowercase`: the result depends on the characters alone,
/// and an empty string stays empty.
#[verifier::external_body]
fn to_lowercase(s: &str) -> (r: String)
    ensures
        r@ == lower_of(s@),
        s@.len() == 0 ==> r@.len() == 0,
{
    s.to_lowercase()
}

/// Relies on `str::contains`: true exactly when `needle` occurs contiguously
/// in `hay`.
#[verifier::external_body]
fn contains_substring(hay: &str, needle: &str) -> (r: bool)
    ensures
        r == is_substring(needle@, hay@),
{
    hay.contains(needle)
}

/// Decides whether an entry name matches the search pattern: the lower-cased
/// name must contain the lower-cased pattern.  An empty pattern matches every
/// name.
pub fn entry_matches(name: &str, pattern: &str) -> (r: bool)
    ensures
        r == name_matches(name@, pattern@),
        pattern@.len() == 0 ==> r,
{
    let lowered_name = to_lowercase(name);
    let lowered_pattern = to_lowercase(pattern);
    let r = contains_substring(lowered_name.as_str(), lowered_pattern.as_str());
    proof {
        if pattern@.len() == 0 {
            lemma_empty_needle(lowered_pattern@, lowered_name@);
        }
    }
    r
}

} // verus!
