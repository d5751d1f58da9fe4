//! A wrapping policy that breaks a paragraph once: the first line is held to its
//! width, and everything after the break stays together on a second line, however
//! long it gets.

use crate::unicode::{display_width, str_width};
use vstd::prelude::*;
use vstd::slice::*;

verus! {

/// A unit of text that is never split, with the number of columns it occupies.
#[derive(Debug, Clone, Copy)]
pub struct Word<'a> {
    /// The text of the word.
    pub word: &'a str,
    /// Its display width, in columns.
    pub width: usize,
}

impl<'a> Word<'a> {
    /// A word of the given text, measured by its display width.
    pub fn from(word: &'a str) -> (measured: Word<'a>)
        ensures
            measured.word@ == word@,
            measured.width == display_width(word@),
    {
        Word { word, width: str_width(word) }
    }
}

/// The target width of line number `line` (counted from zero): the entry of
/// `line_widths` at that position, the last entry for every line past the end,
/// and zero where `line_widths` is empty.
pub open spec fn width_of_line(line_widths: Seq<usize>, line: int) -> int {
    if 0 <= line < line_widths.len() {
        line_widths[line] as int
    } else if line_widths.len() > 0 {
        line_widths.last() as int
    } else {
        0
    }
}

/// The sum of the widths of the first `count` words.
pub open spec fn width_of_first<'a>(words: Seq<Word<'a>>, count: int) -> int
    decreases count,
{
    if count <= 0 {
        0
    } else {
        width_of_first(words, count - 1) + words[count - 1].width
    }
}

/// The word at `index` is not the first one, and with it the words so far are wider
/// than `limit`.
pub open spec fn overflows_at<'a>(words: Seq<Word<'a>>, limit: int, index: int) -> bool {
    0 < index < words.len() && width_of_first(words, index + 1) > limit
}

/// `at` is where the paragraph breaks: the first index that overflows, or the
/// number of words where none does.
pub open spec fn is_break_point<'a>(words: Seq<Word<'a>>, limit: int, at: int) -> bool {
    &&& 0 <= at <= words.len()
    &&& at < words.len() ==> overflows_at(words, limit, at)
    &&& forall|j: int| 0 <= j < at ==> !overflows_at(words, limit, j)
}

/// The index at which the paragraph breaks under `limit`.
pub open spec fn break_point<'a>(words: Seq<Word<'a>>, limit: int) -> int {
    choose|at: int| is_break_point(words, limit, at)
}

/// The lines of the paragraph: the words before the break, then, where there is a
/// break, all the others.
pub open spec fn wrapped_once<'a>(words: Seq<Word<'a>>, line_widths: Seq<usize>) -> Seq<
    Seq<Word<'a>>,
> {
    let at = break_point(words, width_of_line(line_widths, 0));
    if at < words.len() {
        seq![words.subrange(0, at), words.subrange(at, words.len() as int)]
    } else {
        seq![words]
    }
}

/// The words of each line.
pub open spec fn lines_of<'a, 'b>(lines: Seq<&'b [Word<'a>]>) -> Seq<Seq<Word<'a>>> {
    Seq::new(lines.len(), |i: int| lines[i]@)
}

/// A paragraph breaks at one index only.
pub proof fn lemma_break_point_unique<'a>(words: Seq<Word<'a>>, limit: int, a: int, b: int)
    requires
        is_break_point(words, limit, a),
        is_break_point(words, limit, b),
    ensures
        a == b,
{
}

/// An index that meets `is_break_point` is the break point.
pub proof fn lemma_break_point_is<'a>(words: Seq<Word<'a>>, limit: int, at: int)
    requires
        is_break_point(words, limit, at),
    ensures
        break_point(words, limit) == at,
{
    lemma_break_point_unique(words, limit, at, break_point(words, limit));
}

/// Every paragraph has a break point.
pub proof fn lemma_break_point_exists<'a>(words: Seq<Word<'a>>, limit: int)
    ensures
        is_break_point(words, limit, break_point(words, limit)),
{
    lemma_break_point_from(words, limit, 0);
}

/// Where no index before `from` overflows, a break point exists.
proof fn lemma_break_point_from<'a>(words: Seq<Word<'a>>, limit: int, from: int)
    requires
        0 <= from <= words.len(),
        forall|j: int| 0 <= j < from ==> !overflows_at(words, limit, j),
    ensures
        exists|at: int| is_break_point(words, limit, at),
    decreases words.len() - from,
{
    if from < words.len() && !overflows_at(words, limit, from) {
        lemma_break_point_from(words, limit, from + 1);
    } else {
        assert(is_break_point(words, limit, from));
    }
}

/// The words come out as one line or two, and the lines, one after the other, are
/// the words: none is lost, none is moved. A paragraph that has words has a first
/// line that has words.
pub proof fn lemma_wrapped_once_keeps_words<'a>(words: Seq<Word<'a>>, line_widths: Seq<usize>)
    ensures
        1 <= wrapped_once(words, line_widths).len() <= 2,
        wrapped_once(words, line_widths).flatten() == words,
        words.len() > 0 ==> wrapped_once(words, line_widths)[0].len() > 0,
{
    let limit = width_of_line(line_widths, 0);
    let at = break_point(words, limit);
    let lines = wrapped_once(words, line_widths);
    lemma_break_point_exists(words, limit);
    if at < words.len() {
        let first = words.subrange(0, at);
        let rest = words.subrange(at, words.len() as int);
        assert(lines =~= seq![first].push(rest));
        seq![first].lemma_flatten_push(rest);
        seq![first].lemma_flatten_singleton();
    } else {
        lines.lemma_flatten_singleton();
    }
}

/// A first line of more than one word is no wider than the width of the first
/// line; and the word that opens a second line would have taken the first line
/// past that width.
pub proof fn lemma_first_line_fits<'a>(words: Seq<Word<'a>>, line_widths: Seq<usize>)
    ensures
        ({
            let limit = width_of_line(line_widths, 0);
            let at = break_point(words, limit);
            &&& at >= 2 ==> width_of_first(words, at) <= limit
            &&& at < words.len() ==> width_of_first(words, at + 1) > limit
        }),
{
    let limit = width_of_line(line_widths, 0);
    let at = break_point(words, limit);
    lemma_break_point_exists(words, limit);
    if at >= 2 {
        assert(!overflows_at(words, limit, at - 1));
    }
}

/// Wrapping the same words to the same widths twice gives the same lines.
pub proof fn lemma_wrap_once_repeatable<'a, 'b>(
    words: Seq<Word<'a>>,
    line_widths: Seq<usize>,
    first: Seq<&'b [Word<'a>]>,
    second: Seq<&'b [Word<'a>]>,
)
    requires
        lines_of(first) == wrapped_once(words, line_widths),
        lines_of(second) == wrapped_once(words, line_widths),
    ensures
        lines_of(first) == lines_of(second),
{
}

/// The target width of line number `line`, looked up without wrapping around.
pub fn line_width(line_widths: &[usize], line: usize) -> (width: usize)
    ensures
        width == width_of_line(line_widths@, line as int),
{
    if line < line_widths.len() {
        line_widths[line]
    } else if line_widths.len() > 0 {
        line_widths[line_widths.len() - 1]
    } else {
        0
    }
}

/// Scans the words in order, adding up their widths, and stops at the first word
/// that would take the line past `limit`, unless it is the first word of all.
pub fn first_break<'a>(words: &[Word<'a>], limit: usize) -> (at: usize)
    ensures
        at == break_point(words@, limit as int),
        is_break_point(words@, limit as int, at as int),
{
    let mut width: usize = 0;
    let mut idx: usize = 0;
    while idx < words.len()
        invariant
            idx <= words.len(),
            width == width_of_first(words@, idx as int),
            forall|j: int| 0 <= j < idx ==> !overflows_at(words@, limit as int, j),
        decreases words.len() - idx,
    {
        let w = words[idx].width;
        if idx > 0 && (w > limit || width > limit - w) {
            proof {
                lemma_break_point_is(words@, limit as int, idx as int);
            }
            return idx;
        }
        width = width + w;
        idx += 1;
    }
    proof {
        lemma_break_point_is(words@, limit as int, idx as int);
    }
    idx
}

/// Wraps the first line to its width and lets the second run as long as it likes.
///
/// The words are added up against the width of the first line. The first word is
/// always taken. At the first later word that would pass the width, the words
/// before it become line one and that word with all that follow become line two,
/// which is held to no width. Where no word passes the width, all words are one
/// line.
pub fn wrap_once<'a, 'b>(words: &'b [Word<'a>], line_widths: &'b [usize]) -> (lines: Vec<
    &'b [Word<'a>],
>)
    ensures
        lines_of(lines@) == wrapped_once(words@, line_widths@),
{
    let mut lines: Vec<&'b [Word<'a>]> = Vec::new();
    let limit = line_width(line_widths, lines.len());
    let at = first_break(words, limit);
    if at < words.len() {
        lines.push(slice_subrange(words, 0, at));
        lines.push(slice_subrange(words, at, words.len()));
    } else {
        lines.push(words);
    }
    lines
}

} // verus!
