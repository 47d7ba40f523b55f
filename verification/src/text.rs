//! Case-insensitive substring matching on names, the engine's one piece of
//! text handling.

use vstd::prelude::*;

verus! {

/// The Unicode lowercase form of a sequence of characters.
pub uninterp spec fn lower_of(s: Seq<char>) -> Seq<char>;

/// Whether `needle` occurs contiguously inside `hay`.
pub open spec fn contains_seq(hay: Seq<char>, needle: Seq<char>) -> bool {
    exists|i: int|
        0 <= i && i + needle.len() <= hay.len() && #[trigger] hay.subrange(i, i + needle.len())
            == needle
}

/// Whether a name matches a query: the lowercased query occurs inside the
/// lowercased name.
pub open spec fn name_matches(name: Seq<char>, query: Seq<char>) -> bool {
    contains_seq(lower_of(name), lower_of(query))
}

/// Relies on str::to_lowercase: the result is the Unicode lowercase form of
/// the input, a function of its characters alone, and an empty string stays
/// empty.
#[verifier::external_body]
fn lowercase(s: &str) -> (r: String)
    ensures
        r@ == lower_of(s@),
        s@.len() == 0 ==> r@.len() == 0,
{
    s.to_lowercase()
}

/// Relies on str::contains with a string pattern: it reports whether the
/// pattern occurs as a contiguous substring of the receiver.
#[verifier::external_body]
fn contains_str(hay: &str, needle: &str) -> (r: bool)
    ensures
        r == contains_seq(hay@, needle@),
{
    hay.contains(needle)
}

/// Whether the name matches the query, compared case-insensitively.
pub fn matches_name(name: &str, query: &str) -> (r: bool)
    ensures
        r == name_matches(name@, query@),
{
    let lname = lowercase(name);
    let lquery = lowercase(query);
    contains_str(lname.as_str(), lquery.as_str())
}

} // verus!
