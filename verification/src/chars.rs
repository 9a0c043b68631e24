//! Strings as sequences of characters, and text as lines.

use vstd::prelude::*;

verus! {

/// `String::push` appends `ch` to the end of the string.
pub assume_specification[ String::push ](text: &mut String, ch: char)
    ensures
        final(text)@ == old(text)@.push(ch),
;

/// The characters of `text`.
pub fn chars_of(text: &str) -> (chars: Vec<char>)
    ensures
        chars@ == text@,
{
    let mut chars: Vec<char> = Vec::new();
    for ch in it: text.chars()
        invariant
            it.seq() == text@,
            chars@ == text@.take(it.index() as int),
    {
        proof {
            assert(text@.take(it.index() + 1) =~= text@.take(it.index() as int).push(ch));
        }
        chars.push(ch);
    }
    proof {
        assert(text@.take(text@.len() as int) =~= text@);
    }
    chars
}

/// The string of the characters `chars[from..to]`.
pub fn string_of(chars: &Vec<char>, from: usize, to: usize) -> (text: String)
    requires
        from <= to <= chars@.len(),
    ensures
        text@ == chars@.subrange(from as int, to as int),
{
    let mut text = String::new();
    let mut i: usize = from;
    proof {
        assert(chars@.subrange(from as int, from as int) =~= Seq::<char>::empty());
    }
    while i < to
        invariant
            from <= i <= to <= chars@.len(),
            text@ == chars@.subrange(from as int, i as int),
        decreases to - i,
    {
        text.push(chars[i]);
        proof {
            assert(chars@.subrange(from as int, i + 1) =~= chars@.subrange(
                from as int,
                i as int,
            ).push(chars@[i as int]));
        }
        i = i + 1;
    }
    text
}

/// The index of the first `'\n'` in `text` at or after `from`, or the
/// length of `text` where there is none.
pub open spec fn line_end(text: Seq<char>, from: int) -> int
    decreases text.len() - from,
{
    if from >= text.len() {
        text.len() as int
    } else if text[from] == '\n' {
        from
    } else {
        line_end(text, from + 1)
    }
}

/// The pieces of `text` between its line feeds, from `from` on. Text that
/// ends in a line feed has an empty piece at its end.
pub open spec fn split_from(text: Seq<char>, from: int) -> Seq<Seq<char>>
    decreases text.len() - from,
{
    let end = line_end(text, from);
    if from > text.len() {
        Seq::empty()
    } else if end >= text.len() {
        seq![text.subrange(from, text.len() as int)]
    } else if from <= end {
        seq![text.subrange(from, end)] + split_from(text, end + 1)
    } else {
        Seq::empty()
    }
}

/// The pieces of `text` between its line feeds.
pub open spec fn split_on_newline(text: Seq<char>) -> Seq<Seq<char>> {
    split_from(text, 0)
}

/// A line without the carriage return that ends it, if one does.
pub open spec fn without_return(line: Seq<char>) -> Seq<char> {
    if line.len() > 0 && line.last() == '\r' {
        line.drop_last()
    } else {
        line
    }
}

/// The lines of `text` from `from` on: what stands between line endings,
/// which are a line feed or a carriage return and a line feed. The last line
/// need not have a line ending, and an ending at the very end begins no
/// further line.
pub open spec fn lines_from(text: Seq<char>, from: int) -> Seq<Seq<char>>
    decreases text.len() - from,
{
    let end = line_end(text, from);
    if from >= text.len() {
        Seq::empty()
    } else if end >= text.len() {
        seq![text.subrange(from, text.len() as int)]
    } else if from <= end {
        seq![without_return(text.subrange(from, end))] + lines_from(text, end + 1)
    } else {
        Seq::empty()
    }
}

/// The lines of `text`.
pub open spec fn lines_of(text: Seq<char>) -> Seq<Seq<char>> {
    lines_from(text, 0)
}

/// Where the line that begins at `from` ends.
pub proof fn lemma_line_end(text: Seq<char>, from: int)
    requires
        0 <= from <= text.len(),
    ensures
        from <= line_end(text, from) <= text.len(),
        line_end(text, from) < text.len() ==> text[line_end(text, from)] == '\n',
        forall|k: int| from <= k < line_end(text, from) ==> text[k] != '\n',
    decreases text.len() - from,
{
    if from < text.len() && text[from] != '\n' {
        lemma_line_end(text, from + 1);
    }
}

/// The end of the line that begins at `from`.
fn find_line_end(chars: &Vec<char>, from: usize) -> (end: usize)
    requires
        from <= chars@.len(),
    ensures
        end == line_end(chars@, from as int),
        from <= end <= chars@.len(),
{
    let mut end = from;
    while end < chars.len() && chars[end] != '\n'
        invariant
            from <= end <= chars@.len(),
            line_end(chars@, from as int) == line_end(chars@, end as int),
        decreases chars@.len() - end,
    {
        end = end + 1;
    }
    end
}

/// The pieces of `text` between its line feeds. Text that ends in a line
/// feed has an empty piece at its end, and text without a line feed is one
/// piece.
pub fn split_newlines(text: &str) -> (pieces: Vec<String>)
    ensures
        crate::grapheme::texts(pieces@) == split_on_newline(text@),
{
    let chars = chars_of(text);
    let mut pieces: Vec<String> = Vec::new();
    let mut from: usize = 0;
    let ghost mut done: Seq<Seq<char>> = Seq::empty();
    loop
        invariant_except_break
            split_on_newline(text@) == done + split_from(chars@, from as int),
        invariant
            from <= chars@.len(),
            chars@ == text@,
            crate::grapheme::texts(pieces@) == done,
        ensures
            crate::grapheme::texts(pieces@) == split_on_newline(text@),
        decreases chars@.len() - from,
    {
        let end = find_line_end(&chars, from);
        let piece = string_of(&chars, from, end);
        proof {
            lemma_line_end(chars@, from as int);
            done = done.push(piece@);
        }
        pieces.push(piece);
        proof {
            assert(crate::grapheme::texts(pieces@) =~= done);
        }
        if end >= chars.len() {
            proof {
                assert(split_on_newline(text@) =~= done);
            }
            break ;
        }
        proof {
            assert(split_on_newline(text@) =~= done + split_from(chars@, end + 1));
        }
        from = end + 1;
    }
    pieces
}

/// The lines of `text`: what stands between line endings, which are a line
/// feed or a carriage return and a line feed. The last line need not have a
/// line ending.
pub fn split_lines(text: &str) -> (lines: Vec<String>)
    ensures
        crate::grapheme::texts(lines@) == lines_of(text@),
{
    let chars = chars_of(text);
    let mut lines: Vec<String> = Vec::new();
    let mut from: usize = 0;
    let ghost mut done: Seq<Seq<char>> = Seq::empty();
    while from < chars.len()
        invariant
            from <= chars@.len(),
            chars@ == text@,
            crate::grapheme::texts(lines@) == done,
            lines_of(text@) == done + lines_from(chars@, from as int),
        decreases chars@.len() - from,
    {
        let end = find_line_end(&chars, from);
        proof {
            lemma_line_end(chars@, from as int);
        }
        if end >= chars.len() {
            let line = string_of(&chars, from, end);
            proof {
                done = done.push(line@);
            }
            lines.push(line);
            proof {
                assert(crate::grapheme::texts(lines@) =~= done);
                assert(lines_of(text@) =~= done + lines_from(chars@, chars@.len() as int));
            }
            from = chars.len();
        } else {
            let stop = if end > from && chars[end - 1] == '\r' {
                end - 1
            } else {
                end
            };
            let line = string_of(&chars, from, stop);
            proof {
                let whole = chars@.subrange(from as int, end as int);
                assert(line@ =~= without_return(whole));
                done = done.push(line@);
            }
            lines.push(line);
            proof {
                assert(crate::grapheme::texts(lines@) =~= done);
                assert(lines_of(text@) =~= done + lines_from(chars@, end + 1));
            }
            from = end + 1;
        }
    }
    proof {
        assert(lines_of(text@) =~= done);
    }
    lines
}

} // verus!
