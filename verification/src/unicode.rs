//! The two Unicode services that the layout rules rest on: segmentation into
//! grapheme clusters and display width. Both are computed by outside crates; what
//! is stated of them here is believed, not proved.

use unicode_segmentation::UnicodeSegmentation;
use unicode_width::UnicodeWidthStr;
use vstd::prelude::*;
use vstd::utf8::*;

verus! {

/// The number of terminal columns that `text` occupies, as `unicode-width` counts
/// them: control characters count zero, ambiguous-width characters one.
pub uninterp spec fn display_width(text: Seq<char>) -> nat;

/// The extended grapheme clusters of `text`, in order, as `unicode-segmentation`
/// delimits them.
pub uninterp spec fn grapheme_clusters(text: Seq<char>) -> Seq<Seq<char>>;

/// The texts of a list of clusters paired with their offsets.
pub open spec fn cluster_texts(clusters: Seq<(usize, &str)>) -> Seq<Seq<char>> {
    Seq::new(clusters.len(), |i: int| clusters[i].1@)
}

/// The number of bytes that the first `count` of `clusters` take together.
pub open spec fn bytes_before(clusters: Seq<Seq<char>>, count: int) -> nat
    decreases count,
{
    if count <= 0 {
        0
    } else {
        bytes_before(clusters, count - 1) + encode_utf8(clusters[count - 1]).len()
    }
}

/// Calls `UnicodeWidthStr::width` of `unicode-width`.
///
/// Trusted: the result is the display width of `text`. It is the sum of one width
/// per character, none of them above two, so it is at most twice the number of
/// characters.
#[verifier::external_body]
pub(crate) fn str_width(text: &str) -> (width: usize)
    ensures
        width == display_width(text@),
        width <= 2 * text@.len(),
{
    UnicodeWidthStr::width(text)
}

/// Calls `UnicodeSegmentation::grapheme_indices` of `unicode-segmentation`, for
/// extended clusters, and collects what it yields.
///
/// Trusted: the texts yielded are the grapheme clusters of `text` in order; they
/// are consecutive pieces of `text` that together make up all of it; and each
/// comes with the byte offset at which it starts, which is the number of bytes
/// of the pieces before it.
#[verifier::external_body]
pub(crate) fn grapheme_indices<'a>(text: &'a str) -> (clusters: Vec<(usize, &'a str)>)
    ensures
        cluster_texts(clusters@) == grapheme_clusters(text@),
        cluster_texts(clusters@).flatten() == text@,
        forall|i: int|
            0 <= i < clusters@.len() ==> (#[trigger] clusters@[i]).0 == bytes_before(
                cluster_texts(clusters@),
                i,
            ),
{
    UnicodeSegmentation::grapheme_indices(text, true).collect()
}

} // verus!
