//! String predicates of the standard library, with their meaning on the
//! sequence of characters that a string stands for.

use vstd::prelude::*;

verus! {

/// `needle` occurs in `hay` as a contiguous run of characters.
pub open spec fn occurs_in(needle: Seq<char>, hay: Seq<char>) -> bool {
    exists|start: int|
        0 <= start && start + needle.len() <= hay.len() && #[trigger] hay.subrange(
            start,
            start + needle.len(),
        ) == needle
}

/// Trusted: `str::eq`. Two strings are equal exactly when they hold the same
/// characters in the same order.
#[verifier::external_body]
pub(crate) fn same_text(a: &str, b: &str) -> (same: bool)
    ensures
        same == (a@ == b@),
{
    a == b
}

/// Trusted: `str::contains` with a string pattern. It answers whether the
/// pattern occurs somewhere in the string as a contiguous run of characters.
#[verifier::external_body]
pub(crate) fn contains_text(hay: &str, needle: &str) -> (found: bool)
    ensures
        found == occurs_in(needle@, hay@),
{
    hay.contains(needle)
}

/// Trusted: `str::starts_with` with a string pattern. It answers whether the
/// string begins with the characters of the pattern.
#[verifier::external_body]
pub(crate) fn starts_with_text(text: &str, prefix: &str) -> (found: bool)
    ensures
        found == prefix@.is_prefix_of(text@),
{
    text.starts_with(prefix)
}

/// Trusted: `str::ends_with` with a string pattern. It answers whether the
/// string ends with the characters of the pattern.
#[verifier::external_body]
pub(crate) fn ends_with_text(text: &str, suffix: &str) -> (found: bool)
    ensures
        found == suffix@.is_suffix_of(text@),
{
    text.ends_with(suffix)
}

} // verus!
