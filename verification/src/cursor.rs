//! The display column of the cursor of an edited line.
//!
//! The cursor of a line is a byte offset; the column at which it is drawn is the
//! sum of the display widths of the grapheme clusters that lie before it. A wide
//! character takes two columns, a combining mark none, so neither the byte offset
//! nor the number of characters gives the column.

use crate::encoding::{lemma_encode_concat, lemma_encode_len};
use crate::unicode::{
    bytes_before, cluster_texts, display_width, grapheme_clusters, grapheme_indices, str_width,
};
use vstd::prelude::*;
use vstd::string::*;
use vstd::utf8::*;

verus! {

/// A grapheme cluster as the cursor sees it: the byte offset at which it starts,
/// and the number of columns it takes.
#[derive(Debug, Clone, Copy)]
pub struct Cluster {
    pub offset: usize,
    pub width: usize,
}

/// What a [`Cluster`] stands for.
pub ghost struct ClusterSpan {
    pub offset: int,
    pub width: nat,
}

impl View for Cluster {
    type V = ClusterSpan;

    open spec fn view(&self) -> ClusterSpan {
        ClusterSpan { offset: self.offset as int, width: self.width as nat }
    }
}

/// The views of a list of clusters.
pub open spec fn cluster_spans(clusters: Seq<Cluster>) -> Seq<ClusterSpan> {
    Seq::new(clusters.len(), |i: int| clusters[i]@)
}

/// The sum of the widths of the first `count` clusters.
pub open spec fn columns_before(spans: Seq<ClusterSpan>, count: int) -> nat
    decreases count,
{
    if count <= 0 {
        0
    } else {
        columns_before(spans, count - 1) + spans[count - 1].width
    }
}

/// `at` is the index of the cluster on which a cursor at `pos` stands: the first
/// cluster that starts at `pos`, or the number of clusters where none starts there.
pub open spec fn is_cursor_index(spans: Seq<ClusterSpan>, pos: int, at: int) -> bool {
    &&& 0 <= at <= spans.len()
    &&& at < spans.len() ==> spans[at].offset == pos
    &&& forall|j: int| 0 <= j < at ==> (#[trigger] spans[j]).offset != pos
}

/// The index of the cluster on which a cursor at `pos` stands.
pub open spec fn cursor_index(spans: Seq<ClusterSpan>, pos: int) -> int {
    choose|at: int| is_cursor_index(spans, pos, at)
}

/// The column of a cursor at `pos`: the widths of the clusters before the one on
/// which it stands, added up.
pub open spec fn column_at(spans: Seq<ClusterSpan>, pos: int) -> nat {
    columns_before(spans, cursor_index(spans, pos))
}

/// The grapheme clusters of `text`, each with the byte offset at which it starts
/// and its display width.
pub open spec fn clusters_of(text: Seq<char>) -> Seq<ClusterSpan> {
    let pieces = grapheme_clusters(text);
    Seq::new(
        pieces.len(),
        |i: int|
            ClusterSpan {
                offset: bytes_before(pieces, i) as int,
                width: display_width(pieces[i]),
            },
    )
}

/// A byte offset at which a cursor may stand: the start of a cluster, or a place
/// past the start of every cluster, as the end of the line is.
pub open spec fn is_cluster_boundary(spans: Seq<ClusterSpan>, pos: int) -> bool {
    ||| exists|i: int| 0 <= i < spans.len() && (#[trigger] spans[i]).offset == pos
    ||| forall|i: int| 0 <= i < spans.len() ==> (#[trigger] spans[i]).offset < pos
}

/// No cluster starts before one that precedes it.
pub open spec fn offsets_ascend(spans: Seq<ClusterSpan>) -> bool {
    forall|i: int, j: int|
        0 <= i <= j < spans.len() ==> (#[trigger] spans[i]).offset <= (#[trigger] spans[j]).offset
}

/// A text and a cursor that a [`TextBuffer`] can hold: the cursor lies on a
/// character boundary of the text, and the text is short enough for twice its
/// length in bytes to be a `usize`, as every string in memory is.
pub open spec fn holds_cursor(text: Seq<char>, pos: int) -> bool {
    &&& is_char_boundary(encode_utf8(text), pos)
    &&& 2 * encode_utf8(text).len() <= usize::MAX
}

/// An edited line: its text and the byte offset of its cursor.
///
/// The cursor always lies on a character boundary of the text, never inside the
/// encoding of a character.
#[derive(Debug)]
pub struct TextBuffer {
    buf: String,
    pos: usize,
}

impl TextBuffer {
    /// The text of the line.
    pub closed spec fn text(&self) -> Seq<char> {
        self.buf@
    }

    /// The byte offset of the cursor.
    pub closed spec fn cursor(&self) -> int {
        self.pos as int
    }

    #[verifier::type_invariant]
    spec fn well_formed(&self) -> bool {
        holds_cursor(self.buf@, self.pos as int)
    }

    /// A line of the given text with its cursor at byte offset `pos`.
    ///
    /// `None` where `pos` is not a character boundary of `text`: inside the encoding
    /// of a character, or past the end. (The other condition of [`holds_cursor`],
    /// on the length of the text, is one that no string in memory fails.)
    pub fn new(text: String, pos: usize) -> (buffer: Option<TextBuffer>)
        ensures
            buffer is Some <==> holds_cursor(text@, pos as int),
            buffer matches Some(b) ==> b.text() == text@ && b.cursor() == pos,
    {
        let bytes = text.as_str().as_bytes().len();
        if text.as_str().is_char_boundary(pos) && bytes <= usize::MAX / 2 {
            Some(TextBuffer { buf: text, pos })
        } else {
            None
        }
    }

    /// The text of the line.
    pub fn as_str(&self) -> (text: &str)
        ensures
            text@ == self.text(),
    {
        self.buf.as_str()
    }

    /// The byte offset of the cursor.
    pub fn pos(&self) -> (pos: usize)
        ensures
            pos == self.cursor(),
    {
        self.pos
    }
}

/// Adding more clusters never lowers the sum of the widths.
pub proof fn lemma_columns_grow(spans: Seq<ClusterSpan>, fewer: int, more: int)
    requires
        fewer <= more,
    ensures
        columns_before(spans, fewer) <= columns_before(spans, more),
    decreases more - fewer,
{
    if fewer < more {
        lemma_columns_grow(spans, fewer, more - 1);
    }
}

/// Every offset has a cursor index.
pub proof fn lemma_cursor_index_exists(spans: Seq<ClusterSpan>, pos: int)
    ensures
        is_cursor_index(spans, pos, cursor_index(spans, pos)),
{
    lemma_cursor_index_from(spans, pos, 0);
}

/// Where no cluster before `from` starts at `pos`, a cursor index exists.
proof fn lemma_cursor_index_from(spans: Seq<ClusterSpan>, pos: int, from: int)
    requires
        0 <= from <= spans.len(),
        forall|j: int| 0 <= j < from ==> (#[trigger] spans[j]).offset != pos,
    ensures
        exists|at: int| is_cursor_index(spans, pos, at),
    decreases spans.len() - from,
{
    if from < spans.len() && spans[from].offset != pos {
        lemma_cursor_index_from(spans, pos, from + 1);
    } else {
        assert(is_cursor_index(spans, pos, from));
    }
}

/// An index that meets `is_cursor_index` is the cursor index.
pub proof fn lemma_cursor_index_is(spans: Seq<ClusterSpan>, pos: int, at: int)
    requires
        is_cursor_index(spans, pos, at),
    ensures
        cursor_index(spans, pos) == at,
{
    let other = cursor_index(spans, pos);
    if other < at {
        assert(spans[other].offset != pos);
    }
    if at < other {
        assert(spans[at].offset != pos);
    }
}

/// Among clusters whose offsets ascend, the column of a cursor does not go down as
/// the cursor moves from one boundary to a later one.
pub proof fn lemma_column_ascends(spans: Seq<ClusterSpan>, p: int, q: int)
    requires
        offsets_ascend(spans),
        is_cluster_boundary(spans, p),
        is_cluster_boundary(spans, q),
        p <= q,
    ensures
        column_at(spans, p) <= column_at(spans, q),
{
    lemma_cursor_index_exists(spans, p);
    lemma_cursor_index_exists(spans, q);
    let a = cursor_index(spans, p);
    let b = cursor_index(spans, q);
    if b < a {
        // A cursor at `q` stands on an earlier cluster than one at `p`: then that
        // cluster starts at `q`, and the clusters before `a` do not start at `p`.
        assert(spans[b].offset == q && spans[b].offset != p);
        if a < spans.len() {
            assert(spans[b].offset <= spans[a].offset == p);
        } else {
            assert(forall|i: int| 0 <= i < spans.len() ==> (#[trigger] spans[i]).offset != p);
            assert(spans[b].offset < p);
        }
        assert(false);
    }
    lemma_columns_grow(spans, a, b);
}

/// The first `count` pieces take as many bytes as their concatenation.
proof fn lemma_bytes_before_take(pieces: Seq<Seq<char>>, count: int)
    requires
        0 <= count <= pieces.len(),
    ensures
        bytes_before(pieces, count) == encode_utf8(pieces.take(count).flatten()).len(),
    decreases count,
{
    if count > 0 {
        lemma_bytes_before_take(pieces, count - 1);
        let front = pieces.take(count - 1);
        assert(pieces.take(count) =~= front.push(pieces[count - 1]));
        front.lemma_flatten_push(pieces[count - 1]);
        lemma_encode_concat(front.flatten(), pieces[count - 1]);
    }
}

/// The byte counts before the pieces ascend.
proof fn lemma_bytes_before_ascend(pieces: Seq<Seq<char>>, fewer: int, more: int)
    requires
        fewer <= more,
    ensures
        bytes_before(pieces, fewer) <= bytes_before(pieces, more),
    decreases more - fewer,
{
    if fewer < more {
        lemma_bytes_before_ascend(pieces, fewer, more - 1);
    }
}

/// The clusters of a text start at ascending offsets.
pub proof fn lemma_clusters_ascend(text: Seq<char>)
    ensures
        offsets_ascend(clusters_of(text)),
{
    let pieces = grapheme_clusters(text);
    let spans = clusters_of(text);
    assert forall|i: int, j: int| 0 <= i <= j < spans.len() implies (#[trigger] spans[i]).offset
        <= (#[trigger] spans[j]).offset by {
        lemma_bytes_before_ascend(pieces, i, j);
    }
}

/// The column of the cursor does not go down as the cursor moves forward: for two
/// cluster boundaries of one text, the later one has the column that is not less.
///
/// An offset inside a cluster is no boundary. A cursor there is drawn at the end
/// of the line, so the law does not hold of such offsets.
pub proof fn lemma_column_monotonic(text: Seq<char>, p: int, q: int)
    requires
        is_cluster_boundary(clusters_of(text), p),
        is_cluster_boundary(clusters_of(text), q),
        p <= q,
    ensures
        column_at(clusters_of(text), p) <= column_at(clusters_of(text), q),
{
    lemma_clusters_ascend(text);
    lemma_column_ascends(clusters_of(text), p, q);
}

/// Asking twice for the column of the cursor of one line gives the same column.
pub proof fn lemma_cursor_position_repeatable(
    text: Seq<char>,
    pos: int,
    first: usize,
    second: usize,
)
    requires
        first == column_at(clusters_of(text), pos),
        second == column_at(clusters_of(text), pos),
    ensures
        first == second,
{
}

/// The column of a cursor at byte offset `pos` among the given clusters: the sum
/// of the widths of the clusters before the first one that starts at `pos`, and
/// of all of them where none starts there.
pub fn cursor_column(clusters: &[Cluster], pos: usize) -> (column: usize)
    requires
        column_at(cluster_spans(clusters@), pos as int) <= usize::MAX,
    ensures
        column == column_at(cluster_spans(clusters@), pos as int),
{
    let ghost spans = cluster_spans(clusters@);
    proof {
        lemma_cursor_index_exists(spans, pos as int);
    }
    let mut column: usize = 0;
    let mut i: usize = 0;
    while i < clusters.len()
        invariant
            i <= clusters.len(),
            spans == cluster_spans(clusters@),
            is_cursor_index(spans, pos as int, cursor_index(spans, pos as int)),
            column_at(spans, pos as int) <= usize::MAX,
            column == columns_before(spans, i as int),
            forall|j: int| 0 <= j < i ==> (#[trigger] spans[j]).offset != pos,
        decreases clusters.len() - i,
    {
        if clusters[i].offset == pos {
            proof {
                lemma_cursor_index_is(spans, pos as int, i as int);
            }
            return column;
        }
        proof {
            let at = cursor_index(spans, pos as int);
            assert(at > i) by {
                if at <= i {
                    assert(spans[at].offset == pos);
                }
            }
            lemma_columns_grow(spans, i + 1, at);
        }
        column = column + clusters[i].width;
        i += 1;
    }
    proof {
        lemma_cursor_index_is(spans, pos as int, i as int);
    }
    column
}

/// Acquires the horizontal position of the cursor, so that it can be drawn.
///
/// The text is cut into grapheme clusters; the widths of the clusters that lie
/// before the cursor are added up. A cursor at the end of the line, or at an offset
/// at which no cluster starts, has all clusters before it.
pub fn get_cursor_position(line_buffer: &TextBuffer) -> (column: usize)
    ensures
        column == column_at(clusters_of(line_buffer.text()), line_buffer.cursor()),
{
    proof {
        use_type_invariant(line_buffer);
    }
    let text = line_buffer.as_str();
    let pos = line_buffer.pos();
    let found = grapheme_indices(text);
    let ghost pieces = grapheme_clusters(text@);
    let ghost spans = clusters_of(text@);
    let mut clusters: Vec<Cluster> = Vec::new();
    let mut i: usize = 0;
    while i < found.len()
        invariant
            i <= found.len(),
            pieces == grapheme_clusters(text@),
            spans == clusters_of(text@),
            cluster_texts(found@) == pieces,
            forall|k: int|
                0 <= k < found@.len() ==> (#[trigger] found@[k]).0 == bytes_before(
                    cluster_texts(found@),
                    k,
                ),
            clusters@.len() == i,
            forall|k: int| 0 <= k < i ==> (#[trigger] clusters@[k])@ == spans[k],
            columns_before(spans, i as int) <= 2 * bytes_before(pieces, i as int),
        decreases found.len() - i,
    {
        let offset = found[i].0;
        let piece = found[i].1;
        let width = str_width(piece);
        proof {
            lemma_encode_len(piece@);
        }
        clusters.push(Cluster { offset, width });
        i += 1;
    }
    proof {
        assert(cluster_spans(clusters@) =~= spans);
        lemma_bytes_before_take(pieces, pieces.len() as int);
        assert(pieces.take(pieces.len() as int) =~= pieces);
        lemma_cursor_index_exists(spans, pos as int);
        lemma_columns_grow(spans, cursor_index(spans, pos as int), spans.len() as int);
    }
    cursor_column(clusters.as_slice(), pos)
}

} // verus!
