//! Text in a pane.

use vstd::prelude::*;
use crate::chars::{lines_of, split_lines};
use crate::grapheme::{chunk_cells, grapheme_clusters, graphemes, ragged, texts};
use crate::pane::widget::Widget;
use crate::pane::Size;

verus! {

/// The rows that one line takes in a pane `width` cells wide.
pub open spec fn rows_of_line(line: Seq<char>, width: nat) -> Seq<Seq<char>> {
    ragged(grapheme_clusters(line), width)
}

/// The rows that `lines` take in a pane `width` cells wide.
pub open spec fn rows_of(lines: Seq<Seq<char>>, width: nat) -> Seq<Seq<char>>
    decreases lines.len(),
{
    if lines.len() == 0 {
        Seq::empty()
    } else {
        rows_of(lines.drop_last(), width) + rows_of_line(lines.last(), width)
    }
}

/// The lines of all of `texts`, in their order.
pub open spec fn all_lines(texts: Seq<Seq<char>>) -> Seq<Seq<char>>
    decreases texts.len(),
{
    if texts.len() == 0 {
        Seq::empty()
    } else {
        all_lines(texts.drop_last()) + lines_of(texts.last())
    }
}

/// The last `count` of `rows`, or all of them where there are fewer.
pub open spec fn last_rows(rows: Seq<Seq<char>>, count: nat) -> Seq<Seq<char>> {
    if rows.len() > count {
        rows.skip(rows.len() - count)
    } else {
        rows
    }
}

/// Lines of text of which a pane shows the last that fit.
#[derive(Debug)]
pub struct Text {
    pub lines: Vec<String>,
    pub style: Option<String>,
}

impl Text {
    /// Text without a style of its own.
    pub fn new(lines: Vec<String>) -> (text: Text)
        ensures
            text.lines == lines,
            text.style is None,
    {
        Text { lines, style: None }
    }

    /// Text in the style named `s`.
    pub fn new_styled(lines: Vec<String>, s: &str) -> (text: Text)
        ensures
            text.lines == lines,
            text.style matches Some(style) && style@ == s@,
    {
        let style = Some(s.to_owned());
        Text { lines, style }
    }

    /// Adds the lines of `s` below the text.
    pub fn push(&mut self, s: String)
        ensures
            texts(final(self).lines@) == texts(old(self).lines@) + lines_of(s@),
            final(self).style == old(self).style,
    {
        let mut added = split_lines(s.as_str());
        let ghost before = texts(self.lines@);
        let ghost new = texts(added@);
        self.lines.append(&mut added);
        proof {
            assert(texts(self.lines@) =~= before + new);
        }
    }

    /// Replaces the text by the lines of `s`.
    pub fn set(&mut self, s: &str)
        ensures
            texts(final(self).lines@) == lines_of(s@),
            final(self).style == old(self).style,
    {
        self.lines = split_lines(s);
    }

    /// The text of the rows that a pane of the extent `size` shows.
    pub open spec fn shown(&self, size: Size) -> Seq<Seq<char>> {
        if size.width == 0 {
            Seq::<Seq<char>>::empty()
        } else {
            last_rows(rows_of(all_lines(texts(self.lines@)), size.width as nat), size.height as nat)
        }
    }

    /// The rows that a pane of the extent `size` shows: the text with each
    /// line cut into rows of `size.width` cells, and of those rows the last
    /// `size.height`. A pane without width shows no rows.
    #[verifier::rlimit(40)]
    pub fn rows(&self, size: Size) -> (rows: Vec<String>)
        ensures
            texts(rows@) == self.shown(size),
    {
        let mut rows: Vec<String> = Vec::new();
        if size.width == 0 {
            proof {
                assert(texts(rows@) =~= Seq::<Seq<char>>::empty());
            }
            return rows;
        }
        let width = size.width as usize;
        let ghost given = texts(self.lines@);
        let ghost mut seen: Seq<Seq<char>> = Seq::empty();
        let mut i: usize = 0;
        proof {
            assert(given.take(0) =~= Seq::<Seq<char>>::empty());
            assert(texts(rows@) =~= Seq::<Seq<char>>::empty());
        }
        while i < self.lines.len()
            invariant
                i <= self.lines@.len(),
                width == size.width,
                width > 0,
                given == texts(self.lines@),
                seen == all_lines(given.take(i as int)),
                texts(rows@) == rows_of(seen, width as nat),
            decreases self.lines@.len() - i,
        {
            let lines = split_lines(self.lines[i].as_str());
            let ghost parts = texts(lines@);
            proof {
                assert(given.take(i + 1).drop_last() =~= given.take(i as int));
                assert(given.take(i + 1).last() == self.lines@[i as int]@);
                assert(parts.take(0) =~= Seq::<Seq<char>>::empty());
                assert(seen + parts.take(0) =~= seen);
            }
            let mut j: usize = 0;
            while j < lines.len()
                invariant
                    j <= lines@.len(),
                    width > 0,
                    parts == texts(lines@),
                    texts(rows@) == rows_of(seen + parts.take(j as int), width as nat),
                decreases lines@.len() - j,
            {
                let cells = graphemes(lines[j].as_str());
                let mut chunks = chunk_cells(&cells, width);
                let ghost before = texts(rows@);
                let ghost added = texts(chunks@);
                rows.append(&mut chunks);
                proof {
                    assert(texts(rows@) =~= before + added);
                    let upto = seen + parts.take(j + 1);
                    assert(upto.drop_last() =~= seen + parts.take(j as int));
                    assert(upto.last() == lines@[j as int]@);
                }
                j = j + 1;
            }
            proof {
                assert(parts.take(lines@.len() as int) =~= parts);
                seen = seen + parts;
            }
            i = i + 1;
        }
        proof {
            assert(given.take(self.lines@.len() as int) =~= given);
        }
        let height = size.height as usize;
        if rows.len() > height {
            let ghost all = texts(rows@);
            let tail = rows.split_off(rows.len() - height);
            proof {
                assert(texts(tail@) =~= all.skip(all.len() - height));
            }
            tail
        } else {
            rows
        }
    }

    /// A copy of the name of the style.
    pub fn style_name(&self) -> (style: Option<String>)
        ensures
            match self.style {
                Some(name) => style matches Some(copy) && copy@ == name@,
                None => style is None,
            },
    {
        match &self.style {
            Some(name) => Some(name.clone()),
            None => None,
        }
    }
}

impl Widget for Text {
    fn render_content(&self, size: Size) -> (content: Option<Vec<String>>)
        ensures
            content matches Some(rows) && texts(rows@) == self.shown(size),
    {
        Some(self.rows(size))
    }

    fn render_style(&self) -> (style: Option<String>)
        ensures
            match self.style {
                Some(name) => style matches Some(copy) && copy@ == name@,
                None => style is None,
            },
    {
        self.style_name()
    }
}

} // verus!
