//! The Unicode text measurements that wrapping relies on, taken from the
//! `unicode-width` and `unicode-segmentation` crates.

use vstd::prelude::*;

verus! {

/// Name for `unicode_width::UnicodeWidthStr::width` of a string with the
/// given characters: its display width in terminal columns.
pub uninterp spec fn display_width(s: Seq<char>) -> usize;

/// The display width of `s` in terminal columns.
///
/// Calls `UnicodeWidthStr::width` of `unicode-width`. The contract ties the
/// result to the characters of `s` through `display_width` and states none of
/// the width rules.
#[verifier::external_body]
pub(crate) fn str_width(s: &str) -> (r: usize)
    ensures
        r == display_width(s@),
{
    unicode_width::UnicodeWidthStr::width(s)
}

/// Name for the extended grapheme clusters of a string with the given
/// characters, as `unicode_segmentation::UnicodeSegmentation::graphemes(s, true)`
/// yields them.
pub uninterp spec fn grapheme_clusters(s: Seq<char>) -> Seq<Seq<char>>;

/// The extended grapheme clusters of `s`, in order.
///
/// Calls `UnicodeSegmentation::graphemes(s, true)` of `unicode-segmentation`
/// and copies each cluster into a `String`. Besides naming the result, the
/// contract states what the iterator's source shows: it yields the slices
/// between consecutive cluster boundaries from the start of `s` to its end, so
/// the clusters are non-empty and concatenate back to `s`. Where the
/// boundaries fall is left unstated.
#[verifier::external_body]
pub(crate) fn graphemes(s: &str) -> (r: Vec<String>)
    ensures
        r.deep_view() == grapheme_clusters(s@),
        r.deep_view().flatten() == s@,
        forall|i: int| 0 <= i < r.len() ==> r@[i]@.len() > 0,
{
    unicode_segmentation::UnicodeSegmentation::graphemes(s, true).map(String::from).collect()
}

} // verus!
