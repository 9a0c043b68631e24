//! Text cut into rows of a fixed width.

use vstd::prelude::*;
use crate::grapheme::{chunked, grapheme_clusters, grapheme_count, graphemes,
    lemma_chunked_flatten, split_cells, texts};

verus! {

/// Cuts `line` into chunks of `width` grapheme clusters each. The last chunk
/// is filled up with spaces to `width` cells. No grapheme cluster is cut in
/// two.
///
/// Where the line has a multiple of `width` clusters, nothing is added: the
/// chunks joined are the line, and the joined chunks split again give the
/// same chunks.
pub fn split_line_graphemes(line: &str, width: usize) -> (chunks: Vec<String>)
    requires
        width > 0,
    ensures
        texts(chunks@) == chunked(grapheme_clusters(line@), width as nat),
        grapheme_count(line@) % (width as nat) == 0 ==> texts(chunks@).flatten() == line@,
        grapheme_count(line@) % (width as nat) == 0 ==> chunked(
            grapheme_clusters(texts(chunks@).flatten()),
            width as nat,
        ) == texts(chunks@),
{
    let letters = graphemes(line);
    let chunks = split_cells(&letters, width);
    proof {
        if grapheme_count(line@) % (width as nat) == 0 {
            lemma_chunked_flatten(grapheme_clusters(line@), width as nat);
        }
    }
    chunks
}

} // verus!
