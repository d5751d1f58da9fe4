//! Titles of panels: a row of bracketed groups such as `[ Label: value ] [ Other ]`,
//! produced as styled fragments in the order in which they are drawn.

use vstd::prelude::*;
use vstd::string::*;

verus! {

/// A terminal colour.
#[derive(Debug, Clone, Copy, PartialEq, Eq)]
pub enum Color {
    Reset,
    Black,
    Red,
    Green,
    Yellow,
    Blue,
    Magenta,
    Cyan,
    Gray,
    DarkGray,
    LightRed,
    LightGreen,
    LightYellow,
    LightBlue,
    LightMagenta,
    LightCyan,
    White,
    /// Red, green and blue components.
    Rgb(u8, u8, u8),
    /// An entry of the terminal's palette.
    Indexed(u8),
}

/// How a fragment of text is drawn: its colours, and the text attributes to switch
/// on and off, each a set of bits.
#[derive(Debug, Clone, Copy, PartialEq, Eq)]
pub struct Style {
    pub fg: Option<Color>,
    pub bg: Option<Color>,
    pub add_modifier: u16,
    pub sub_modifier: u16,
}

impl Style {
    /// The style that changes nothing.
    pub open spec fn plain() -> Style {
        Style { fg: None, bg: None, add_modifier: 0, sub_modifier: 0 }
    }
}

impl Default for Style {
    fn default() -> (style: Style)
        ensures
            style == Style::plain(),
    {
        Style { fg: None, bg: None, add_modifier: 0, sub_modifier: 0 }
    }
}

/// A fragment of text in which every character has the same style.
#[derive(Debug, PartialEq, Eq)]
pub struct Span {
    pub content: String,
    pub style: Style,
}

/// What a [`Span`] stands for: its characters and its style.
pub ghost struct SpanView {
    pub content: Seq<char>,
    pub style: Style,
}

impl SpanView {
    /// A fragment in the plain style.
    pub open spec fn raw(content: Seq<char>) -> SpanView {
        SpanView { content, style: Style::plain() }
    }

    /// A fragment in the given style.
    pub open spec fn styled(content: Seq<char>, style: Style) -> SpanView {
        SpanView { content, style }
    }
}

impl View for Span {
    type V = SpanView;

    open spec fn view(&self) -> SpanView {
        SpanView { content: self.content@, style: self.style }
    }
}

impl Span {
    /// A fragment in the plain style.
    pub fn raw(content: String) -> (span: Span)
        ensures
            span@ == SpanView::raw(content@),
    {
        Span { content, style: Style::default() }
    }

    /// A fragment in the given style.
    pub fn styled(content: String, style: Style) -> (span: Span)
        ensures
            span@ == SpanView::styled(content@, style),
    {
        Span { content, style }
    }
}

impl Clone for Span {
    fn clone(&self) -> (copy: Span)
        ensures
            copy@ == self@,
    {
        Span { content: self.content.clone(), style: self.style }
    }
}

/// One group of a title.
pub enum TitleStyle<'a> {
    /// A label and a value, drawn as `[ label: value ]` with the label emphasised.
    Combined(&'a str, &'a str),
    /// A value alone, drawn as `[ value ]` and emphasised.
    Single(&'a str),
    /// A fragment that brings its own style, drawn between the brackets as it is.
    Custom(Span),
}

/// What a [`TitleStyle`] stands for.
pub ghost enum TitleView {
    Combined(Seq<char>, Seq<char>),
    Single(Seq<char>),
    Custom(SpanView),
}

impl<'a> View for TitleStyle<'a> {
    type V = TitleView;

    open spec fn view(&self) -> TitleView {
        match self {
            TitleStyle::Combined(label, value) => TitleView::Combined(label@, value@),
            TitleStyle::Single(value) => TitleView::Single(value@),
            TitleStyle::Custom(span) => TitleView::Custom(span@),
        }
    }
}

/// The views of a list of fragments.
pub open spec fn span_views(spans: Seq<Span>) -> Seq<SpanView> {
    Seq::new(spans.len(), |i: int| spans[i]@)
}

/// The views of a list of groups.
pub open spec fn title_views<'a>(contents: Seq<TitleStyle<'a>>) -> Seq<TitleView> {
    Seq::new(contents.len(), |i: int| contents[i]@)
}

/// The bracket that opens the group at `index`: `"[ "` for the first group, and
/// `" [ "` for every other, which sets it one space apart from the group before.
pub open spec fn opening(index: int) -> Seq<char> {
    if index == 0 {
        seq!['[', ' ']
    } else {
        seq![' ', '[', ' ']
    }
}

/// The bracket that closes a group: `" ]"`.
pub open spec fn closing() -> Seq<char> {
    seq![' ', ']']
}

/// What follows the label of a labelled group: `": "`, the value, and `" ]"`.
pub open spec fn value_closing(value: Seq<char>) -> Seq<char> {
    seq![':', ' '] + value + closing()
}

/// The three fragments of the group `segment` at position `index`: the opening
/// bracket in the plain style, the emphasised part, and the closing part in the
/// plain style.
pub open spec fn segment_spans(segment: TitleView, index: int, style: Style) -> Seq<SpanView> {
    match segment {
        TitleView::Combined(label, value) => seq![
            SpanView::raw(opening(index)),
            SpanView::styled(label, style),
            SpanView::raw(value_closing(value)),
        ],
        TitleView::Single(value) => seq![
            SpanView::raw(opening(index)),
            SpanView::styled(value, style),
            SpanView::raw(closing()),
        ],
        TitleView::Custom(span) => seq![
            SpanView::raw(opening(index)),
            span,
            SpanView::raw(closing()),
        ],
    }
}

/// The fragments of a whole title: three for each group, in the order of the groups.
pub open spec fn title_layout(segments: Seq<TitleView>, style: Style) -> Seq<SpanView> {
    Seq::new(
        3 * segments.len(),
        |k: int| segment_spans(segments[k / 3], k / 3, style)[k % 3],
    )
}

/// The text that fragments show when they are drawn one after the other.
pub open spec fn rendered(spans: Seq<SpanView>) -> Seq<char>
    decreases spans.len(),
{
    if spans.len() == 0 {
        Seq::empty()
    } else {
        rendered(spans.drop_last()) + spans.last().content
    }
}

/// What stands between the brackets of a group: `label: value`, the value, or the
/// text of the custom fragment.
pub open spec fn group_inner(segment: TitleView) -> Seq<char> {
    match segment {
        TitleView::Combined(label, value) => label + seq![':', ' '] + value,
        TitleView::Single(value) => value,
        TitleView::Custom(span) => span.content,
    }
}

/// A row of bracketed groups: `[ first ] [ second ] ...`.
pub open spec fn row_text(segments: Seq<TitleView>) -> Seq<char>
    decreases segments.len(),
{
    if segments.len() == 0 {
        Seq::empty()
    } else {
        row_text(segments.drop_last()) + opening(segments.len() - 1) + group_inner(
            segments.last(),
        ) + closing()
    }
}

/// Drawn one after the other, the fragments of a title read as a row of bracketed
/// groups, one group for each segment, in the order of the segments.
pub proof fn lemma_title_reads_as_row(segments: Seq<TitleView>, style: Style)
    ensures
        rendered(title_layout(segments, style)) == row_text(segments),
    decreases segments.len(),
{
    let layout = title_layout(segments, style);
    if segments.len() > 0 {
        let n = segments.len() as int;
        let group = segment_spans(segments.last(), n - 1, style);
        let two = layout.drop_last();
        let one = two.drop_last();
        let none = one.drop_last();
        assert(none =~= title_layout(segments.drop_last(), style));
        lemma_title_reads_as_row(segments.drop_last(), style);
        assert(rendered(two) == rendered(one) + group[1].content);
        assert(group[0].content + group[1].content + group[2].content =~= opening(n - 1)
            + group_inner(segments.last()) + closing());
    }
}

/// Laying the same groups out in the same style twice gives the same fragments.
pub proof fn lemma_title_spans_repeatable(
    segments: Seq<TitleView>,
    style: Style,
    first: Seq<Span>,
    second: Seq<Span>,
)
    requires
        span_views(first) == title_layout(segments, style),
        span_views(second) == title_layout(segments, style),
    ensures
        span_views(first) == span_views(second),
{
}

/// The text `"[ "` or `" [ "` that opens the group at `index`.
fn opening_bracket(index: usize) -> (text: String)
    ensures
        text@ == opening(index as int),
{
    proof {
        reveal_strlit("[ ");
        reveal_strlit(" [ ");
    }
    if index == 0 {
        String::from_str("[ ")
    } else {
        String::from_str(" [ ")
    }
}

/// The text `" ]"` that closes a group.
fn closing_bracket() -> (text: String)
    ensures
        text@ == closing(),
{
    proof {
        reveal_strlit(" ]");
    }
    String::from_str(" ]")
}

/// The text `": value ]"` that follows a label.
fn value_and_closing(value: &str) -> (text: String)
    ensures
        text@ == value_closing(value@),
{
    proof {
        reveal_strlit(": ");
        reveal_strlit(" ]");
    }
    let mut text = String::from_str(": ");
    text.append(value);
    text.append(" ]");
    text
}

/// Lays a title out as fragments that read `[ first ] [ second ] ...` when drawn
/// one after the other.
///
/// Each group gives three fragments: its opening bracket, its emphasised part in
/// `style` (a custom fragment keeps its own style), and its closing part. The
/// groups come out in the order given; none is dropped, merged or moved.
pub fn title_spans<'a>(contents: &'a [TitleStyle<'a>], style: Style) -> (complete: Vec<Span>)
    ensures
        span_views(complete@) == title_layout(title_views(contents@), style),
{
    let mut complete: Vec<Span> = Vec::new();
    let ghost segments = title_views(contents@);
    let mut i: usize = 0;
    while i < contents.len()
        invariant
            i <= contents.len(),
            segments == title_views(contents@),
            complete@.len() == 3 * i,
            forall|k: int|
                0 <= k < 3 * i ==> (#[trigger] complete@[k])@ == segment_spans(
                    segments[k / 3],
                    k / 3,
                    style,
                )[k % 3],
        decreases contents.len() - i,
    {
        let first_bracket = Span::raw(opening_bracket(i));
        let ghost before = complete@;
        let ghost group = segment_spans(segments[i as int], i as int, style);
        match &contents[i] {
            TitleStyle::Combined(title, value) => {
                complete.push(first_bracket);
                complete.push(Span::styled(String::from_str(title), style));
                complete.push(Span::raw(value_and_closing(value)));
            },
            TitleStyle::Single(value) => {
                complete.push(first_bracket);
                complete.push(Span::styled(String::from_str(value), style));
                complete.push(Span::raw(closing_bracket()));
            },
            TitleStyle::Custom(span) => {
                complete.push(first_bracket);
                complete.push(span.clone());
                complete.push(Span::raw(closing_bracket()));
            },
        }
        proof {
            assert forall|k: int| 0 <= k < 3 * (i + 1) implies (#[trigger] complete@[k])@
                == segment_spans(segments[k / 3], k / 3, style)[k % 3] by {
                if k < 3 * i {
                    assert(complete@[k] == before[k]);
                } else {
                    assert(k / 3 == i && complete@[k]@ == group[k % 3]);
                }
            }
        }
        i += 1;
    }
    complete
}

} // verus!
