//! Text operations of the standard library that search relies on. Their
//! contracts are taken on trust.

use vstd::prelude::*;

verus! {

/// What `str::to_lowercase` makes of a text: its Unicode lower-case form.
pub uninterp spec fn lowercase_of(text: Seq<char>) -> Seq<char>;

/// Whether `needle` occurs in `text` as a run of consecutive characters.
pub open spec fn is_substring(needle: Seq<char>, text: Seq<char>) -> bool {
    exists|i: int|
        0 <= i <= text.len() - needle.len() && #[trigger] text.subrange(i, i + needle.len())
            == needle
}

/// `str::to_lowercase`: the lower-case form of a text.
#[verifier::external_body]
pub(crate) fn lowercase(text: &str) -> (lowered: String)
    ensures
        lowered@ == lowercase_of(text@),
{
    text.to_lowercase()
}

/// `str::contains` with a string pattern: whether the pattern occurs in the
/// text. Both are valid UTF-8, so a run of matching bytes is a run of
/// matching characters.
#[verifier::external_body]
pub(crate) fn holds(text: &str, needle: &str) -> (found: bool)
    ensures
        found == is_substring(needle@, text@),
{
    text.contains(needle)
}

/// `==` on string slices: whether two texts have the same characters.
#[verifier::external_body]
pub(crate) fn same_text(a: &str, b: &str) -> (same: bool)
    ensures
        same == (a@ == b@),
{
    a == b
}

} // verus!
