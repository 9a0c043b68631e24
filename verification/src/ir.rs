//! What a widget renders: lines of styled text, and blocks of such lines
//! with the handlers, cursors and hit map of the widgets that made them.

use vstd::prelude::*;
use vstd::std_specs::convert::FromSpecImpl;
use crate::grapheme::{blank, count_graphemes, grapheme_count, leading_graphemes, spaces,
    take_graphemes};
use crate::{Color, Name, Pos, Size};

pub mod block;

pub use block::{MouseTarget, TextBlock};

verus! {

/// Says which widget a span of text belongs to and what part of the widget
/// it is, so that a style can be looked up for it.
#[derive(Debug, Clone, Copy, PartialEq, Eq)]
pub struct ContentID {
    pub name: Option<Name>,
    pub widget_type: &'static str,
    pub class: &'static str,
}

impl ContentID {
    pub fn as_tuple(self) -> (parts: (Option<Name>, &'static str, &'static str))
        ensures
            parts == (self.name, self.widget_type, self.class),
    {
        (self.name, self.widget_type, self.class)
    }

    pub fn new(name: Option<Name>, widget_type: &'static str, class: &'static str) -> (id: Self)
        ensures
            id == (ContentID { name, widget_type, class }),
    {
        Self { name, widget_type, class }
    }
}

/// A span of text in one style. `len` is the number of grid cells that the
/// span takes, which is what all width arithmetic goes by.
#[derive(Debug, Clone)]
pub struct Segment {
    pub id: ContentID,
    pub text: String,
    pub len: usize,
}

/// What a [`Segment`] holds.
pub struct SegmentView {
    pub id: ContentID,
    pub text: Seq<char>,
    pub len: nat,
}

impl View for Segment {
    type V = SegmentView;

    open spec fn view(&self) -> SegmentView {
        SegmentView { id: self.id, text: self.text@, len: self.len as nat }
    }
}

/// A span of `text` as wide as `text` has grapheme clusters.
pub open spec fn text_view(id: ContentID, text: Seq<char>) -> SegmentView {
    SegmentView { id, text, len: grapheme_count(text) }
}

/// A span of `len` spaces.
pub open spec fn blank_view(id: ContentID, len: nat) -> SegmentView {
    SegmentView { id, text: spaces(len), len }
}

/// The span `segment` cut down to its first `len` grapheme clusters.
pub open spec fn cut_view(segment: SegmentView, len: nat) -> SegmentView {
    SegmentView { id: segment.id, text: leading_graphemes(segment.text, len), len }
}

/// A span of exactly `width` cells that shows `text`: cut after `width`
/// grapheme clusters where `text` is longer, filled up with spaces where it is
/// shorter.
pub open spec fn constrained_view(id: ContentID, text: Seq<char>, width: nat) -> SegmentView {
    if grapheme_count(text) >= width {
        SegmentView { id, text: leading_graphemes(text, width), len: width }
    } else {
        SegmentView { id, text: text + spaces((width - grapheme_count(text)) as nat), len: width }
    }
}

impl Segment {
    pub fn new(name: Option<Name>, widget: &'static str, class: &'static str, text: String) -> (segment: Self)
        ensures
            segment@ == text_view(ContentID { name, widget_type: widget, class }, text@),
    {
        let id = ContentID::new(name, widget, class);
        Self::new_id(id, text)
    }

    /// A span that shows `text` and is as wide as `text` has grapheme
    /// clusters.
    pub fn new_id(id: ContentID, text: String) -> (segment: Self)
        ensures
            segment@ == text_view(id, text@),
    {
        let len = count_graphemes(text.as_str());
        Self { id, text, len }
    }

    /// A span of `len` spaces.
    pub fn blank_sized(id: ContentID, len: usize) -> (segment: Self)
        ensures
            segment@ == blank_view(id, len as nat),
    {
        let text = blank(len);
        Self { id, text, len }
    }

    /// A span of exactly `width` cells that shows `text`, cut or filled up
    /// with spaces as needed.
    pub fn from_str_constrained(id: ContentID, text: &str, width: usize) -> (segment: Self)
        ensures
            segment@ == constrained_view(id, text@, width as nat),
    {
        let count = count_graphemes(text);
        if count >= width {
            let text = take_graphemes(text, width);
            Self { id, text, len: width }
        } else {
            let mut padded = String::from_str(text);
            let fill = blank(width - count);
            padded.append(fill.as_str());
            Self { id, text: padded, len: width }
        }
    }
}

/// The number of cells that a sequence of spans takes.
pub open spec fn total_len(segments: Seq<SegmentView>) -> nat
    decreases segments.len(),
{
    if segments.len() == 0 {
        0
    } else {
        total_len(segments.drop_last()) + segments.last().len
    }
}

/// The spans that fit into `len` cells: each span in order as long as it
/// fits as a whole, then the first `len` minus those cells of the span that
/// does not, and nothing after it.
pub open spec fn truncated(segments: Seq<SegmentView>, len: nat) -> Seq<SegmentView>
    decreases segments.len(),
{
    if segments.len() == 0 || len == 0 {
        Seq::empty()
    } else if segments.first().len <= len {
        seq![segments.first()] + truncated(
            segments.drop_first(),
            (len - segments.first().len) as nat,
        )
    } else {
        seq![cut_view(segments.first(), len)]
    }
}

/// A line of spans brought to exactly `len` cells: a shorter line gets a
/// blank span in the style of its last span, a longer one is truncated.
pub open spec fn clipped(segments: Seq<SegmentView>, len: nat) -> Seq<SegmentView> {
    let total = total_len(segments);
    if total < len {
        segments.push(blank_view(segments.last().id, (len - total) as nat))
    } else if total > len {
        truncated(segments, len)
    } else {
        segments
    }
}

/// Adding a span adds its cells.
pub proof fn lemma_total_len_push(segments: Seq<SegmentView>, segment: SegmentView)
    ensures
        total_len(segments.push(segment)) == total_len(segments) + segment.len,
{
    assert(segments.push(segment).drop_last() =~= segments);
}

/// The cells of two runs of spans add up.
pub proof fn lemma_total_len_add(left: Seq<SegmentView>, right: Seq<SegmentView>)
    ensures
        total_len(left + right) == total_len(left) + total_len(right),
    decreases right.len(),
{
    if right.len() == 0 {
        assert(left + right =~= left);
    } else {
        assert((left + right).drop_last() =~= left + right.drop_last());
        lemma_total_len_add(left, right.drop_last());
    }
}

/// Truncation to `len` cells gives `len` cells where the line has more.
pub proof fn lemma_truncated_len(segments: Seq<SegmentView>, len: nat)
    requires
        total_len(segments) >= len,
    ensures
        total_len(truncated(segments, len)) == len,
    decreases segments.len(),
{
    if segments.len() == 0 || len == 0 {
    } else {
        let first = segments.first();
        let rest = segments.drop_first();
        assert(seq![first] + rest =~= segments);
        lemma_total_len_add(seq![first], rest);
        lemma_total_len_push(Seq::empty(), first);
        assert(Seq::<SegmentView>::empty().push(first) =~= seq![first]);
        if first.len <= len {
            lemma_truncated_len(rest, (len - first.len) as nat);
            lemma_total_len_add(seq![first], truncated(rest, (len - first.len) as nat));
        } else {
            lemma_total_len_push(Seq::empty(), cut_view(first, len));
            assert(Seq::<SegmentView>::empty().push(cut_view(first, len)) =~= seq![
                cut_view(first, len),
            ]);
        }
    }
}

/// A clipped line is exactly as wide as it was clipped to.
pub proof fn lemma_clipped_len(segments: Seq<SegmentView>, len: nat)
    ensures
        total_len(clipped(segments, len)) == len,
{
    let total = total_len(segments);
    if total < len {
        lemma_total_len_push(segments, blank_view(segments.last().id, (len - total) as nat));
    } else if total > len {
        lemma_truncated_len(segments, len);
    }
}

/// To clip a line again to the length that it was
/// clipped to changes nothing.
pub proof fn lemma_clip_idempotent(segments: Seq<SegmentView>, len: nat)
    ensures
        clipped(clipped(segments, len), len) == clipped(segments, len),
{
    lemma_clipped_len(segments, len);
}

/// A line of text: spans side by side.
#[derive(Debug, Clone)]
pub struct TextLine {
    pub segments: Vec<Segment>,
    pub len: usize,
}

impl View for TextLine {
    type V = Seq<SegmentView>;

    open spec fn view(&self) -> Seq<SegmentView> {
        self.segments@.map_values(|segment: Segment| segment@)
    }
}

impl TextLine {
    /// `len` is the number of cells that the spans take together.
    pub open spec fn wf(&self) -> bool {
        self.len == total_len(self@)
    }

    /// Brings the line to exactly `len` cells. A shorter line is filled up
    /// with a blank span in the style of its last span. Of a longer line the
    /// spans that fit stay, and the span that reaches over the end is cut
    /// after the grapheme clusters that fit.
    #[verifier::rlimit(40)]
    pub fn clip(self, len: usize) -> (line: Self)
        requires
            self.wf(),
            self.len < len ==> self.segments@.len() > 0,
        ensures
            line.wf(),
            line.len == len,
            line@ == clipped(self@, len as nat),
    {
        let ghost given = self@;
        let mut line = self;
        if line.len < len {
            let last_id = line.segments[line.segments.len() - 1].id;
            assert(given.last().id == last_id);
            let fill = Segment::blank_sized(last_id, len - line.len);
            line.push(fill);
            line
        } else if line.len > len {
            let segments = line.segments;
            let ghost all = segments@;
            let mut kept: Vec<Segment> = Vec::new();
            let mut accum: usize = 0;
            proof {
                assert(given.take(0) =~= Seq::<SegmentView>::empty());
                assert(given.skip(0) =~= given);
                assert(kept@.map_values(|segment: Segment| segment@) =~= Seq::<
                    SegmentView,
                >::empty());
            }
            for segment in it: segments
                invariant
                    it.seq() == all,
                    given == all.map_values(|segment: Segment| segment@),
                    accum <= len,
                    accum == if total_len(given.take(it.index() as int)) < len {
                        total_len(given.take(it.index() as int))
                    } else {
                        len as nat
                    },
                    total_len(kept@.map_values(|segment: Segment| segment@)) == accum,
                    truncated(given, len as nat) == kept@.map_values(|segment: Segment| segment@)
                        + truncated(given.skip(it.index() as int), (len - accum) as nat),
            {
                let ghost i = it.index() as int;
                let ghost kept_before = kept@.map_values(|segment: Segment| segment@);
                let ghost rest = given.skip(i);
                proof {
                    assert(rest.first() == segment@);
                    assert(rest.drop_first() =~= given.skip(i + 1));
                    assert(given.take(i + 1).drop_last() =~= given.take(i));
                    assert(given.take(i + 1).last() == segment@);
                }
                if accum >= len {
                    proof {
                        assert(truncated(given.skip(i + 1), 0) =~= Seq::<SegmentView>::empty());
                    }
                } else if segment.len <= len - accum {
                    accum = accum + segment.len;
                    proof {
                        lemma_total_len_push(kept_before, segment@);
                    }
                    kept.push(segment);
                    proof {
                        assert(kept@.map_values(|segment: Segment| segment@) =~= kept_before.push(
                            segment@,
                        ));
                    }
                } else {
                    let mut segment = segment;
                    let ghost whole = segment@;
                    segment.text = take_graphemes(segment.text.as_str(), len - accum);
                    segment.len = len - accum;
                    proof {
                        assert(segment@ == cut_view(whole, (len - accum) as nat));
                        lemma_total_len_push(kept_before, segment@);
                        assert(truncated(given.skip(i + 1), 0) =~= Seq::<SegmentView>::empty());
                    }
                    accum = len;
                    kept.push(segment);
                    proof {
                        assert(kept@.map_values(|segment: Segment| segment@) =~= kept_before.push(
                            segment@,
                        ));
                    }
                }
            }
            proof {
                assert(given.take(all.len() as int) =~= given);
                assert(given.skip(all.len() as int) =~= Seq::<SegmentView>::empty());
            }
            TextLine { segments: kept, len }
        } else {
            line
        }
    }

    /// Adds a span at the end of the line.
    pub fn push(&mut self, segment: Segment)
        requires
            old(self).wf(),
            old(self).len + segment.len <= usize::MAX,
        ensures
            final(self).wf(),
            final(self)@ == old(self)@.push(segment@),
            final(self).len == old(self).len + segment.len,
    {
        proof {
            lemma_total_len_push(self@, segment@);
        }
        self.len += segment.len;
        self.segments.push(segment);
        assert(self@ =~= old(self)@.push(segment@));
    }

    /// Adds the spans of `other` at the end of the line.
    pub fn hconcat(&mut self, other: Self)
        requires
            old(self).wf(),
            other.wf(),
            old(self).len + other.len <= usize::MAX,
        ensures
            final(self).wf(),
            final(self)@ == old(self)@ + other@,
            final(self).len == old(self).len + other.len,
    {
        let ghost added = other@;
        let mut other = other;
        proof {
            lemma_total_len_add(self@, other@);
        }
        self.len += other.len;
        self.segments.append(&mut other.segments);
        assert(self@ =~= old(self)@ + added);
    }

    /// A line of one span.
    pub fn from_segment(segment: Segment) -> (line: Self)
        ensures
            line.wf(),
            line@ == seq![segment@],
            line.len == segment.len,
    {
        let len = segment.len;
        let mut segments = Vec::new();
        segments.push(segment);
        let line = TextLine { segments, len };
        proof {
            assert(line@ =~= seq![segment@]);
            assert(Seq::<SegmentView>::empty().push(segment@) =~= line@);
            lemma_total_len_push(Seq::empty(), segment@);
        }
        line
    }
}

impl From<Segment> for TextLine {
    fn from(segment: Segment) -> (line: TextLine)
        ensures
            line.wf(),
            line@ == seq![segment@],
            line.len == segment.len,
    {
        TextLine::from_segment(segment)
    }
}

impl FromSpecImpl<Segment> for TextLine {
    open spec fn obeys_from_spec() -> bool {
        false
    }

    open spec fn from_spec(segment: Segment) -> TextLine {
        arbitrary()
    }
}

/// A row of a frame: for each span its foreground and background colour, its
/// text and the number of cells that it takes.
pub type FrameLine<'a> = Vec<(Color, Color, &'a str, usize)>;

/// What is handed to the terminal to paint: text with its colours, and the
/// cell at which the cursor is to be shown.
pub struct Frame<'a> {
    pub size: Size,
    pub image: Vec<FrameLine<'a>>,
    pub focus: Option<Pos>,
}

impl<'a> Frame<'a> {
    pub fn new(size: Size, image: Vec<FrameLine<'a>>, focus: Option<Pos>) -> (frame: Self)
        ensures
            frame.size == size,
            frame.image == image,
            frame.focus == focus,
    {
        Self { size, image, focus }
    }
}

/// `cell` shows `segment` in the colours that `style` gives for it, the
/// terminal's own colour standing in for one that `style` leaves open.
pub open spec fn is_cell_of<F: Fn(ContentID) -> (Option<Color>, Option<Color>)>(
    style: F,
    segment: SegmentView,
    cell: (Color, Color, &str, usize),
) -> bool {
    &&& cell.2@ == segment.text
    &&& cell.3 == segment.len
    &&& exists|colors: (Option<Color>, Option<Color>)|
        call_ensures(style, (segment.id,), colors) && cell.0 == (match colors.0 {
            Some(color) => color,
            None => Color::Reset,
        }) && cell.1 == (match colors.1 {
            Some(color) => color,
            None => Color::Reset,
        })
}

} // verus!
