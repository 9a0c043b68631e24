//! Grapheme clusters: the unit in which the width of text is counted.
//!
//! A cell of the terminal grid shows one grapheme cluster, which may be made
//! of several code points. Text is therefore never cut by bytes or by
//! `char`s, only between clusters.

use vstd::prelude::*;
use unicode_segmentation::UnicodeSegmentation;

verus! {

/// The extended grapheme clusters of `text` in the order in which they occur,
/// as the Unicode segmentation rules delimit them.
pub uninterp spec fn grapheme_clusters(text: Seq<char>) -> Seq<Seq<char>>;

/// The number of grid cells that `text` takes.
pub open spec fn grapheme_count(text: Seq<char>) -> nat {
    grapheme_clusters(text).len()
}

/// The contents of a sequence of strings.
pub open spec fn texts(cells: Seq<String>) -> Seq<Seq<char>> {
    cells.map_values(|cell: String| cell@)
}

/// `n` spaces.
pub open spec fn spaces(n: nat) -> Seq<char> {
    Seq::new(n, |i: int| ' ')
}

/// The first `n` grapheme clusters of `text` joined, or all of them where
/// `text` has fewer.
pub open spec fn leading_graphemes(text: Seq<char>, n: nat) -> Seq<char> {
    let cells = grapheme_clusters(text);
    if n >= cells.len() {
        cells.flatten()
    } else {
        cells.take(n as int).flatten()
    }
}

/// Calls `UnicodeSegmentation::graphemes` for the extended grapheme clusters
/// of `text` and copies each into a `String`.
///
/// Trusted: the result is what [`grapheme_clusters`] names, and the clusters
/// are consecutive slices of `text` that cover it from its first byte to its
/// last, so that joined they give `text` back.
#[verifier::external_body]
fn unicode_graphemes(text: &str) -> (cells: Vec<String>)
    ensures
        texts(cells@) == grapheme_clusters(text@),
        texts(cells@).flatten() == text@,
{
    UnicodeSegmentation::graphemes(text, true).map(|cluster| cluster.to_owned()).collect()
}

/// The grapheme clusters of `text`, each as a string of its own.
pub fn graphemes(text: &str) -> (cells: Vec<String>)
    ensures
        texts(cells@) == grapheme_clusters(text@),
        texts(cells@).flatten() == text@,
{
    unicode_graphemes(text)
}

/// The number of grid cells that `text` takes.
pub fn count_graphemes(text: &str) -> (count: usize)
    ensures
        count == grapheme_count(text@),
{
    let cells = unicode_graphemes(text);
    assert(texts(cells@).len() == cells@.len());
    cells.len()
}

/// Joins the strings `cells[from..to]`.
pub fn join(cells: &Vec<String>, from: usize, to: usize) -> (joined: String)
    requires
        from <= to <= cells@.len(),
    ensures
        joined@ == texts(cells@).subrange(from as int, to as int).flatten(),
{
    let mut joined = String::new();
    let mut i: usize = from;
    assert(texts(cells@).subrange(from as int, from as int) =~= Seq::<Seq<char>>::empty());
    while i < to
        invariant
            from <= i <= to <= cells@.len(),
            joined@ == texts(cells@).subrange(from as int, i as int).flatten(),
        decreases to - i,
    {
        proof {
            let done = texts(cells@).subrange(from as int, i as int);
            assert(texts(cells@).subrange(from as int, i + 1) =~= done.push(cells@[i as int]@));
            done.lemma_flatten_push(cells@[i as int]@);
        }
        joined.append(cells[i].as_str());
        i = i + 1;
    }
    joined
}

/// A string of `n` spaces.
pub fn blank(n: usize) -> (text: String)
    ensures
        text@ == spaces(n as nat),
{
    let mut text = String::new();
    let mut i: usize = 0;
    assert(text@ =~= spaces(0));
    while i < n
        invariant
            i <= n,
            text@ == spaces(i as nat),
        decreases n - i,
    {
        proof {
            reveal_strlit(" ");
            assert(spaces(i as nat) + " "@ =~= spaces((i + 1) as nat));
        }
        text.append(" ");
        i = i + 1;
    }
    text
}

/// The first `n` grapheme clusters of `text`, or all of `text` where it has
/// fewer.
pub fn take_graphemes(text: &str, n: usize) -> (taken: String)
    ensures
        taken@ == leading_graphemes(text@, n as nat),
{
    let cells = unicode_graphemes(text);
    assert(texts(cells@).len() == cells@.len());
    let end = if n < cells.len() { n } else { cells.len() };
    proof {
        let all = texts(cells@);
        if n >= cells@.len() {
            assert(all.subrange(0, end as int) =~= all);
        } else {
            assert(all.subrange(0, end as int) =~= all.take(n as int));
        }
    }
    join(&cells, 0, end)
}

/// The number of chunks of `width` cells that `count` cells fill, the last
/// of them perhaps only in part.
pub open spec fn chunk_count(count: nat, width: nat) -> nat {
    if count % width == 0 {
        count / width
    } else {
        count / width + 1
    }
}

/// Chunk `i` of a run of cells cut into chunks of `width` cells: the cells
/// joined, and spaces for what the last chunk lacks.
pub open spec fn line_chunk(cells: Seq<Seq<char>>, width: nat, i: int) -> Seq<char> {
    let start = i * width;
    let end = start + width;
    if end <= cells.len() {
        cells.subrange(start, end).flatten()
    } else {
        cells.subrange(start, cells.len() as int).flatten() + spaces((end - cells.len()) as nat)
    }
}

/// A run of cells cut into chunks of `width` cells, the last one filled up
/// with spaces.
pub open spec fn chunked(cells: Seq<Seq<char>>, width: nat) -> Seq<Seq<char>> {
    Seq::new(chunk_count(cells.len(), width), |i: int| line_chunk(cells, width, i))
}

/// Cuts a run of cells into chunks of `width` cells, the last one filled up
/// with spaces.
pub fn split_cells(cells: &Vec<String>, width: usize) -> (chunks: Vec<String>)
    requires
        width > 0,
    ensures
        texts(chunks@) == chunked(texts(cells@), width as nat),
{
    let count = cells.len();
    let ghost all = texts(cells@);
    let mut chunks: Vec<String> = Vec::new();
    let mut start: usize = 0;
    let ghost mut i: int = 0;
    proof {
        assert(texts(chunks@) =~= chunked(all, width as nat).take(0));
        assert(all.len() == count);
        if count > 0 {
            lemma_chunk_step(count as nat, width as nat, 0);
        } else {
            assert(0nat % (width as nat) == 0 && 0nat / (width as nat) == 0) by (nonlinear_arith)
                requires
                    width > 0,
            ;
        }
    }
    while start < count
        invariant
            width > 0,
            count == cells@.len(),
            all == texts(cells@),
            start == if i * width < count {
                i * width
            } else {
                count as int
            },
            0 <= i <= chunk_count(count as nat, width as nat),
            start < count ==> i < chunk_count(count as nat, width as nat),
            start >= count ==> i == chunk_count(count as nat, width as nat),
            texts(chunks@) == chunked(all, width as nat).take(i),
        decreases count - start,
    {
        let ghost before = texts(chunks@);
        proof {
            lemma_chunk_step(count as nat, width as nat, i);
        }
        if count - start >= width {
            let chunk = join(cells, start, start + width);
            chunks.push(chunk);
            start = start + width;
        } else {
            let mut chunk = join(cells, start, count);
            let fill = blank(width - (count - start));
            chunk.append(fill.as_str());
            chunks.push(chunk);
            start = count;
        }
        proof {
            let goal = chunked(all, width as nat);
            assert(texts(chunks@) =~= before.push(goal[i]));
            assert(goal.take(i + 1) =~= goal.take(i).push(goal[i]));
            i = i + 1;
        }
    }
    proof {
        let goal = chunked(all, width as nat);
        assert(goal.take(i) =~= goal);
    }
    chunks
}

/// Where chunk `i` of `count` cells begins and ends.
pub proof fn lemma_chunk_step(count: nat, width: nat, i: int)
    requires
        width > 0,
        0 <= i,
        i * width < count,
    ensures
        i < chunk_count(count, width),
        (i + 1) * width == i * width + width,
        (i + 1) * width < count ==> i + 1 < chunk_count(count, width),
        (i + 1) * width >= count ==> i + 1 == chunk_count(count, width),
{
    assert((i + 1) * width == i * width + width) by (nonlinear_arith);
    let q = count as int / width as int;
    let m = count as int % width as int;
    assert(count == q * width + m && 0 <= m < width) by (nonlinear_arith)
        requires
            width > 0,
            q == count as int / width as int,
            m == count as int % width as int,
    ;
    assert(i < q || (i == q && m > 0)) by (nonlinear_arith)
        requires
            i * width < q * width + m,
            0 <= m < width,
            0 <= i,
            width > 0,
    ;
    if (i + 1) * width < count {
        assert(i + 1 < q || (i + 1 == q && m > 0)) by (nonlinear_arith)
            requires
                (i + 1) * width < q * width + m,
                0 <= m < width,
                0 <= i,
                width > 0,
        ;
    } else {
        assert(i + 1 >= q && (m > 0 ==> i + 1 > q)) by (nonlinear_arith)
            requires
                (i + 1) * width >= q * width + m,
                0 <= m < width,
                0 <= i,
                width > 0,
        ;
    }
}

/// Joined, the chunks of a run of cells give the cells joined, where the
/// cells fill the chunks without a rest.
pub proof fn lemma_chunked_flatten(cells: Seq<Seq<char>>, width: nat)
    requires
        width > 0,
        cells.len() % width == 0,
    ensures
        chunked(cells, width).flatten() == cells.flatten(),
{
    let goal = chunked(cells, width);
    let n = goal.len() as int;
    assert(cells.len() == n * width) by (nonlinear_arith)
        requires
            width > 0,
            cells.len() % width == 0,
            n == cells.len() / width,
    ;
    lemma_chunked_prefix(cells, width, n);
    assert(goal.take(n) =~= goal);
    assert(cells.take(n * width) =~= cells);
}

/// Joined, the first `k` chunks of a run of cells give the first `k` times
/// `width` cells joined.
pub proof fn lemma_chunked_prefix(cells: Seq<Seq<char>>, width: nat, k: int)
    requires
        width > 0,
        0 <= k,
        k * width <= cells.len(),
    ensures
        k <= chunked(cells, width).len(),
        chunked(cells, width).take(k).flatten() == cells.take(k * width).flatten(),
    decreases k,
{
    let goal = chunked(cells, width);
    if k == 0 {
        assert(goal.take(0) =~= Seq::<Seq<char>>::empty());
        assert(cells.take(0) =~= Seq::<Seq<char>>::empty());
    } else {
        assert((k - 1) * width == k * width - width) by (nonlinear_arith);
        lemma_chunked_prefix(cells, width, k - 1);
        lemma_chunk_step(cells.len(), width, k - 1);
        let start = (k - 1) * width;
        let end = k * width;
        assert(goal.take(k) =~= goal.take(k - 1).push(goal[k - 1]));
        goal.take(k - 1).lemma_flatten_push(goal[k - 1]);
        assert(goal[k - 1] == cells.subrange(start, end).flatten());
        assert(cells.take(end) =~= cells.take(start) + cells.subrange(start, end));
        vstd::seq_lib::lemma_flatten_concat(cells.take(start), cells.subrange(start, end));
    }
}

/// Chunk `i` of a run of cells cut into chunks of `width` cells: the cells
/// joined. The last chunk may have fewer cells.
pub open spec fn ragged_chunk(cells: Seq<Seq<char>>, width: nat, i: int) -> Seq<char> {
    let start = i * width;
    let end = start + width;
    if end <= cells.len() {
        cells.subrange(start, end).flatten()
    } else {
        cells.subrange(start, cells.len() as int).flatten()
    }
}

/// A run of cells cut into chunks of `width` cells; the last one is as
/// long as what is left.
pub open spec fn ragged(cells: Seq<Seq<char>>, width: nat) -> Seq<Seq<char>> {
    Seq::new(chunk_count(cells.len(), width), |i: int| ragged_chunk(cells, width, i))
}

/// Cuts a run of cells into chunks of `width` cells; the last one is as
/// long as what is left.
pub fn chunk_cells(cells: &Vec<String>, width: usize) -> (chunks: Vec<String>)
    requires
        width > 0,
    ensures
        texts(chunks@) == ragged(texts(cells@), width as nat),
{
    let count = cells.len();
    let ghost all = texts(cells@);
    let mut chunks: Vec<String> = Vec::new();
    let mut start: usize = 0;
    let ghost mut i: int = 0;
    proof {
        assert(texts(chunks@) =~= ragged(all, width as nat).take(0));
        assert(all.len() == count);
        if count > 0 {
            lemma_chunk_step(count as nat, width as nat, 0);
        } else {
            assert(0nat % (width as nat) == 0 && 0nat / (width as nat) == 0) by (nonlinear_arith)
                requires
                    width > 0,
            ;
        }
    }
    while start < count
        invariant
            width > 0,
            count == cells@.len(),
            all == texts(cells@),
            start == if i * width < count {
                i * width
            } else {
                count as int
            },
            0 <= i <= chunk_count(count as nat, width as nat),
            start < count ==> i < chunk_count(count as nat, width as nat),
            start >= count ==> i == chunk_count(count as nat, width as nat),
            texts(chunks@) == ragged(all, width as nat).take(i),
        decreases count - start,
    {
        let ghost before = texts(chunks@);
        proof {
            lemma_chunk_step(count as nat, width as nat, i);
        }
        let end = if count - start >= width {
            start + width
        } else {
            count
        };
        chunks.push(join(cells, start, end));
        start = end;
        proof {
            let goal = ragged(all, width as nat);
            assert(texts(chunks@) =~= before.push(goal[i]));
            assert(goal.take(i + 1) =~= goal.take(i).push(goal[i]));
            i = i + 1;
        }
    }
    proof {
        let goal = ragged(all, width as nat);
        assert(goal.take(i) =~= goal);
    }
    chunks
}

} // verus!
