//! From a tree of elements to a block of text.

use vstd::prelude::*;
use crate::ast::{Bound, Content, Element};
use crate::grapheme::texts;
use crate::ir::block::{joined, renumbered_row, wrapped, wrapped_row};
use crate::ir::{constrained_view, ContentID, MouseTarget, Segment, SegmentView, TextBlock, TextLine};
use crate::widget::LayoutError;
use crate::{Name, Pos, RenderBound, Size};

verus! {

/// The tag of the text of a line element.
pub open spec fn line_id() -> ContentID {
    ContentID { name: None, widget_type: "Element", class: "Line" }
}

/// The tag of the text of a text element.
pub open spec fn text_id() -> ContentID {
    ContentID { name: None, widget_type: "Element", class: "Text" }
}

/// The rows that a text element takes in `rows` rows: as many as it asks
/// for, if it asks, and no more than there are.
pub open spec fn text_rows(bound: Bound, rows: usize) -> usize {
    match bound {
        Bound::Fixed(n) => if n <= rows {
            n
        } else {
            rows
        },
        Bound::Free => rows,
    }
}

/// The rows that are left of `rows` when those of the first `k` of
/// `elements` that have a fixed height have taken theirs, each from what
/// those before it left; nothing where one of them does not fit.
pub open spec fn left_fixed(elements: Vec<Element>, cols: usize, rows: usize, k: int) -> Option<
    usize,
>
    decreases elements, 0int, k,
{
    if k <= 0 || k > elements.len() {
        Some(rows)
    } else {
        match left_fixed(elements, cols, rows, k - 1) {
            None => None,
            Some(left) => match elements[k - 1].size.height {
                Bound::Free => Some(left),
                Bound::Fixed(_) => match image(elements[k - 1], cols, left) {
                    None => None,
                    Some(content) => if content.len() <= left {
                        Some((left - content.len()) as usize)
                    } else {
                        None
                    },
                },
            },
        }
    }
}

/// The rows of which an element without a fixed height gets its share:
/// what is left, divided among the `frees` elements of that kind.
pub open spec fn share(left: usize, frees: usize) -> usize {
    if frees > 0 {
        left / frees
    } else {
        left
    }
}

/// The rows that are left of `start` when those of the first `k` of
/// `elements` that have no fixed height have taken theirs, each of its
/// share of what those before it left; nothing where one of them does not
/// fit.
pub open spec fn left_free(
    elements: Vec<Element>,
    cols: usize,
    start: usize,
    frees: usize,
    k: int,
) -> Option<usize>
    decreases elements, 0int, k,
{
    if k <= 0 || k > elements.len() {
        Some(start)
    } else {
        match left_free(elements, cols, start, frees, k - 1) {
            None => None,
            Some(left) => match elements[k - 1].size.height {
                Bound::Fixed(_) => Some(left),
                Bound::Free => match image(elements[k - 1], cols, share(left, frees)) {
                    None => None,
                    Some(content) => if content.len() <= left {
                        Some((left - content.len()) as usize)
                    } else {
                        None
                    },
                },
            },
        }
    }
}

/// How many of `elements` have no fixed height.
pub open spec fn free_count(elements: Seq<Element>) -> nat
    decreases elements.len(),
{
    if elements.len() == 0 {
        0
    } else {
        free_count(elements.drop_last()) + match elements.last().size.height {
            Bound::Fixed(_) => 0nat,
            Bound::Free => 1nat,
        }
    }
}

/// The lines of element `k` of a box: an element of a fixed height is
/// composed in the rows that the elements of that kind before it left; any
/// other in its share of what all of those and the others before it left.
pub open spec fn part(elements: Vec<Element>, cols: usize, rows: usize, frees: usize, k: int) -> Option<
    Seq<Seq<SegmentView>>,
>
    decreases elements, 1int, 0int,
{
    if 0 <= k < elements.len() {
        match elements[k].size.height {
            Bound::Fixed(_) => match left_fixed(elements, cols, rows, k) {
                Some(left) => image(elements[k], cols, left),
                None => None,
            },
            Bound::Free => match left_fixed(elements, cols, rows, elements.len() as int) {
                Some(start) => match left_free(elements, cols, start, frees, k) {
                    Some(left) => image(elements[k], cols, share(left, frees)),
                    None => None,
                },
                None => None,
            },
        }
    } else {
        None
    }
}

/// The lines of the first `k` elements of a box, one below the other.
pub open spec fn stack(elements: Vec<Element>, cols: usize, rows: usize, frees: usize, k: int) -> Seq<
    Seq<SegmentView>,
>
    decreases elements, 2int, k,
{
    if k <= 0 || k > elements.len() {
        Seq::empty()
    } else {
        stack(elements, cols, rows, frees, k - 1) + match part(elements, cols, rows, frees, k - 1) {
            Some(content) => content,
            None => Seq::empty(),
        }
    }
}

/// The lines of a box of `elements` in a block of `cols` by at most `rows`
/// cells: the elements of a fixed height take their rows first, in their
/// order, then the others, and the lines come in the order of the
/// elements. There are none where an element does not fit.
pub open spec fn column(elements: Vec<Element>, cols: usize, rows: usize) -> Option<
    Seq<Seq<SegmentView>>,
>
    decreases elements, 3int, 0int,
{
    let frees = free_count(elements@) as usize;
    match left_fixed(elements, cols, rows, elements.len() as int) {
        None => None,
        Some(start) => match left_free(elements, cols, start, frees, elements.len() as int) {
            None => None,
            Some(_) => Some(stack(elements, cols, rows, frees, elements.len() as int)),
        },
    }
}

/// The lines of the block that shows `ui` in `cols` by at most `rows`
/// cells: a line in one row, text in the rows that it asks for or that
/// there are, and a box as [`column`] says.
pub open spec fn image(ui: Element, cols: usize, rows: usize) -> Option<Seq<Seq<SegmentView>>>
    decreases ui, 0int, 0int,
{
    match ui.content {
        Content::Line(line) => Some(seq![seq![constrained_view(line_id(), line@, cols as nat)]]),
        Content::Text(text) => Some(
            Seq::new(
                text_rows(ui.size.height, rows) as nat,
                |r: int|
                    wrapped_row(text_id(), wrapped(texts(text@), cols as nat), cols as nat, r),
            ),
        ),
        Content::VBox(elements) => column(elements, cols, rows),
    }
}

/// Two blocks without handlers and cursors, one below the other, are a
/// block without handlers and cursors that shows the lines of both.
pub proof fn lemma_stacked_inert<K, M>(
    above: &TextBlock<K, M>,
    below: &TextBlock<K, M>,
    block: &TextBlock<K, M>,
)
    requires
        above.wf(),
        below.wf(),
        block.wf(),
        above.is_inert(),
        below.is_inert(),
        above.concat_ok(crate::Direction::Vertical, below),
        above.is_concat(crate::Direction::Vertical, below, block),
    ensures
        block.is_inert(),
        block.content() == above.content() + below.content(),
        block.cols() == above.cols(),
        block.rows() == above.rows() + below.rows(),
{
    above.lemma_wf();
    below.lemma_wf();
    block.lemma_wf();
    let joint = joined(crate::Direction::Vertical, above@, below@);
    assert(block@ == joint);
    assert(block.key_handlers() == joint.keys);
    assert(block.mouse_handlers() == joint.mice);
    assert(block.cursor_entries() == joint.cursors);
    assert(block.hits() == joint.hits);
    assert(block.content() == joint.content);
    assert(block.extent() == joint.extent);
    assert(joint.keys.items =~= Seq::<K>::empty());
    assert(joint.keys.parents =~= Seq::<Option<int>>::empty());
    assert(joint.keys.names =~= Seq::<Option<Name>>::empty());
    assert(joint.mice.items =~= Seq::<MouseTarget<M>>::empty());
    assert(joint.mice.parents =~= Seq::<Option<int>>::empty());
    assert(joint.mice.names =~= Seq::<Option<Name>>::empty());
    assert(joint.cursors =~= Map::<Name, Pos>::empty());
    assert forall|r: int, c: int| 0 <= r < block.rows() && 0 <= c < block.cols() implies (
    #[trigger] block.hits()[r][c]) is None by {
        if r < above.rows() {
            assert(block.hits()[r] == above.hits()[r]);
            assert(above.hits()[r][c] is None);
        } else {
            let q = r - above.rows();
            assert(block.hits()[r] == renumbered_row(below.hits()[q], 0));
            assert(below.hits()[q][c] is None);
        }
    }
}

/// One row that shows `line`, cut or filled up to the width of `size`.
pub fn compose_line<K, M>(line: String, size: Size) -> (block: TextBlock<K, M>)
    ensures
        block.wf(),
        block.is_inert(),
        block.extent() == (Size { cols: size.cols, rows: 1 }),
        block.content() == seq![seq![constrained_view(line_id(), line@, size.cols as nat)]],
{
    let id = ContentID::new(None, "Element", "Line");
    let segment = Segment::from_str_constrained(id, line.as_str(), size.cols);
    let row = TextLine::from_segment(segment);
    let mut rows: Vec<TextLine> = Vec::new();
    rows.push(row);
    let block = TextBlock::new(rows, size.cols, 1);
    proof {
        assert(block.content() =~= seq![
            seq![constrained_view(line_id(), line@, size.cols as nat)],
        ]);
    }
    block
}

/// The paragraphs `text` wrapped at the width of `size`, in as many rows as
/// [`text_rows`] says.
pub fn compose_text<K, M>(text: Vec<String>, size: Size, bound: Bound) -> (block: TextBlock<K, M>)
    ensures
        block.wf(),
        block.is_inert(),
        block.extent() == (Size { cols: size.cols, rows: text_rows(bound, size.rows) }),
        block.content() == Seq::new(
            block.rows() as nat,
            |r: int|
                wrapped_row(
                    text_id(),
                    wrapped(texts(text@), size.cols as nat),
                    size.cols as nat,
                    r,
                ),
        ),
{
    let rows = match bound {
        Bound::Fixed(n) => if n <= size.rows {
            n
        } else {
            size.rows
        },
        Bound::Free => size.rows,
    };
    let id = ContentID::new(None, "Element", "Text");
    TextBlock::wrap_lines(id, text, RenderBound::new(Some(size.cols), Some(rows)))
}

/// Where the elements of a fixed height among the first `m` fit, those
/// among the first `k` of them fit, and leave no fewer rows.
pub proof fn lemma_left_fixed_earlier(elements: Vec<Element>, cols: usize, rows: usize, k: int, m: int)
    requires
        0 <= k <= m <= elements.len(),
        left_fixed(elements, cols, rows, m) is Some,
    ensures
        left_fixed(elements, cols, rows, k) matches Some(left) && left >= left_fixed(
            elements,
            cols,
            rows,
            m,
        )->0,
    decreases m - k,
{
    if k < m {
        lemma_left_fixed_earlier(elements, cols, rows, k, m - 1);
    }
}

/// Where the elements without a fixed height among the first `m` fit,
/// those among the first `k` of them fit, and leave no fewer rows.
pub proof fn lemma_left_free_earlier(
    elements: Vec<Element>,
    cols: usize,
    start: usize,
    frees: usize,
    k: int,
    m: int,
)
    requires
        0 <= k <= m <= elements.len(),
        left_free(elements, cols, start, frees, m) is Some,
    ensures
        left_free(elements, cols, start, frees, k) matches Some(left) && left >= left_free(
            elements,
            cols,
            start,
            frees,
            m,
        )->0,
    decreases m - k,
{
    if k < m {
        lemma_left_free_earlier(elements, cols, start, frees, k, m - 1);
    }
}

/// The lines of the first `k` elements of a box whose elements fit are as
/// many as the rows that these elements took, and no more than the box has.
pub proof fn lemma_stack_len(elements: Vec<Element>, cols: usize, rows: usize, frees: usize, k: int)
    requires
        0 <= k <= elements.len(),
        left_fixed(elements, cols, rows, elements.len() as int) is Some,
        left_free(
            elements,
            cols,
            left_fixed(elements, cols, rows, elements.len() as int)->0,
            frees,
            k,
        ) is Some,
    ensures
        left_fixed(elements, cols, rows, k) is Some,
        stack(elements, cols, rows, frees, k).len() == (rows - left_fixed(
            elements,
            cols,
            rows,
            k,
        )->0) + (left_fixed(elements, cols, rows, elements.len() as int)->0 - left_free(
            elements,
            cols,
            left_fixed(elements, cols, rows, elements.len() as int)->0,
            frees,
            k,
        )->0),
        stack(elements, cols, rows, frees, k).len() <= rows,
    decreases k,
{
    let n = elements.len() as int;
    let start = left_fixed(elements, cols, rows, n)->0;
    lemma_left_fixed_earlier(elements, cols, rows, k, n);
    if k > 0 {
        lemma_left_fixed_earlier(elements, cols, rows, k - 1, n);
        lemma_left_fixed_earlier(elements, cols, rows, k - 1, k);
        lemma_left_free_earlier(elements, cols, start, frees, k - 1, k);
        lemma_stack_len(elements, cols, rows, frees, k - 1);
        let fixed_before = left_fixed(elements, cols, rows, k - 1)->0;
        let free_before = left_free(elements, cols, start, frees, k - 1)->0;
        let lines = part(elements, cols, rows, frees, k - 1);
        match elements[k - 1].size.height {
            Bound::Fixed(_) => {
                assert(lines == image(elements[k - 1], cols, fixed_before));
                assert(lines is Some);
                assert(left_fixed(elements, cols, rows, k) == Some(
                    (fixed_before - lines->0.len()) as usize,
                ));
                assert(left_free(elements, cols, start, frees, k) == Some(free_before));
            },
            Bound::Free => {
                assert(lines == image(elements[k - 1], cols, share(free_before, frees)));
                assert(lines is Some);
                assert(left_free(elements, cols, start, frees, k) == Some(
                    (free_before - lines->0.len()) as usize,
                ));
                assert(left_fixed(elements, cols, rows, k) == Some(fixed_before));
            },
        }
        assert(stack(elements, cols, rows, frees, k) == stack(elements, cols, rows, frees, k - 1)
            + lines->0);
    }
}

/// The elements one below the other in a block as wide as `size`. The
/// elements of a fixed height are composed first, in their order, each in the
/// rows that those before it left; the others then each get the rows that
/// are left divided by their number, and leave what they do not take to those
/// after them. The blocks are put together in the order of the elements.
/// An element that takes more rows than are left for it does not fit.
#[verifier::rlimit(100)]
fn compose_vbox<K, M>(elements: Vec<Element>, size: Size) -> (block: Result<
    TextBlock<K, M>,
    LayoutError,
>)
    ensures
        block is Ok <==> column(elements, size.cols, size.rows) is Some,
        block matches Err(error) ==> error == LayoutError::OutOfSpace,
        block matches Ok(block) ==> block.wf() && block.is_inert() && block.cols() == size.cols
            && block.rows() <= size.rows && Some(block.content()) == column(
            elements,
            size.cols,
            size.rows,
        ),
    decreases elements, 0int,
{
    let cols = size.cols;
    let count = elements.len();
    let ghost es = elements;
    let ghost n = count as int;
    let mut greedy_count: usize = 0;
    let mut i: usize = 0;
    proof {
        assert(elements@.take(0) =~= Seq::<Element>::empty());
    }
    while i < count
        invariant
            i <= count,
            count == elements@.len(),
            greedy_count <= i,
            greedy_count == free_count(elements@.take(i as int)),
        decreases count - i,
    {
        proof {
            assert(elements@.take(i + 1).drop_last() =~= elements@.take(i as int));
        }
        match elements[i].size.height {
            Bound::Fixed(_) => {},
            Bound::Free => {
                greedy_count = greedy_count + 1;
            },
        }
        i = i + 1;
    }
    proof {
        assert(elements@.take(count as int) =~= elements@);
    }
    let mut remaining_rows = size.rows;
    let mut slots: Vec<Option<TextBlock<K, M>>> = Vec::new();
    let mut rest: Vec<Option<Element>> = Vec::new();
    let ghost given = elements@;
    for element in it: elements
        invariant
            it.seq() == given,
            es == elements,
            given == es@,
            n == given.len(),
            cols == size.cols,
            remaining_rows <= size.rows,
            left_fixed(es, cols, size.rows, it.index() as int) == Some(remaining_rows),
            slots@.len() == it.index(),
            rest@.len() == it.index(),
            forall|k: int|
                0 <= k < slots@.len() ==> (#[trigger] slots@[k] matches Some(block) ==> block.wf()
                    && block.cols() == cols && block.is_inert() && given[k].size.height is Fixed
                    && part(es, cols, size.rows, greedy_count, k) == Some(block.content())),
            forall|k: int| 0 <= k < rest@.len() ==> (#[trigger] rest@[k] is Some <==> slots@[k] is None),
            forall|k: int|
                0 <= k < rest@.len() ==> (#[trigger] rest@[k] matches Some(element) ==> element
                    == given[k] && element.size.height is Free),
    {
        let ghost k = it.index() as int;
        proof {
            assert(decreases_to!(es => es@));
            assert(decreases_to!(es@ => es@[k]));
            assert(element == es[k]);
        }
        match element.size.height {
            Bound::Fixed(_) => {
                let block = match compose_image(element, Size::new(cols, remaining_rows)) {
                    Ok(block) => block,
                    Err(error) => {
                        proof {
                            assert(left_fixed(es, cols, size.rows, k + 1) is None);
                            if left_fixed(es, cols, size.rows, n) is Some {
                                lemma_left_fixed_earlier(es, cols, size.rows, k + 1, n);
                            }
                        }
                        return Err(error);
                    },
                };
                let taken = block.size().rows;
                proof {
                    block.lemma_wf();
                }
                if taken > remaining_rows {
                    proof {
                        assert(left_fixed(es, cols, size.rows, k + 1) is None);
                        if left_fixed(es, cols, size.rows, n) is Some {
                            lemma_left_fixed_earlier(es, cols, size.rows, k + 1, n);
                        }
                    }
                    return Err(LayoutError::OutOfSpace);
                }
                proof {
                    assert(part(es, cols, size.rows, greedy_count, k) == Some(block.content()));
                }
                remaining_rows = remaining_rows - taken;
                slots.push(Some(block));
                rest.push(None);
            },
            Bound::Free => {
                slots.push(None);
                rest.push(Some(element));
            },
        }
    }
    let ghost start = remaining_rows;
    let mut blocks: Vec<TextBlock<K, M>> = Vec::new();
    let mut j: usize = 0;
    let mut slots = slots;
    let mut rest = rest;
    while j < count
        invariant
            j <= count,
            count == given.len(),
            n == count,
            cols == size.cols,
            slots@.len() == count,
            rest@.len() == count,
            blocks@.len() == j,
            es == elements,
            given == es@,
            greedy_count == free_count(es@),
            left_fixed(es, cols, size.rows, n) == Some(start),
            left_free(es, cols, start, greedy_count, j as int) == Some(remaining_rows),
            forall|k: int|
                0 <= k < blocks@.len() ==> (#[trigger] blocks@[k]).wf() && blocks@[k].cols()
                    == cols && blocks@[k].is_inert() && part(
                    es,
                    cols,
                    size.rows,
                    greedy_count,
                    k,
                ) == Some(blocks@[k].content()),
            forall|k: int|
                j <= k < count ==> (#[trigger] slots@[k] matches Some(block) ==> block.wf()
                    && block.cols() == cols && block.is_inert() && given[k].size.height is Fixed
                    && part(es, cols, size.rows, greedy_count, k) == Some(block.content())),
            forall|k: int| j <= k < count ==> (#[trigger] rest@[k] is Some <==> slots@[k] is None),
            forall|k: int|
                j <= k < count ==> (#[trigger] rest@[k] matches Some(element) ==> element
                    == given[k] && element.size.height is Free),
        decreases count - j,
    {
        let mut slot: Option<TextBlock<K, M>> = None;
        std::mem::swap(&mut slot, &mut slots[j]);
        let mut waiting_element: Option<Element> = None;
        std::mem::swap(&mut waiting_element, &mut rest[j]);
        match slot {
            Some(block) => {
                blocks.push(block);
            },
            None => {
                match waiting_element {
                    Some(element) => {
                        proof {
                            assert(decreases_to!(es => es@));
                            assert(decreases_to!(es@ => es@[j as int]));
                            assert(element == es[j as int]);
                        }
                        let share = if greedy_count > 0 {
                            remaining_rows / greedy_count
                        } else {
                            remaining_rows
                        };
                        let block = match compose_image(element, Size::new(cols, share)) {
                            Ok(block) => block,
                            Err(error) => {
                                proof {
                                    assert(left_free(es, cols, start, greedy_count, j + 1) is None);
                                    if left_free(es, cols, start, greedy_count, n) is Some {
                                        lemma_left_free_earlier(
                                            es,
                                            cols,
                                            start,
                                            greedy_count,
                                            j + 1,
                                            n,
                                        );
                                    }
                                }
                                return Err(error);
                            },
                        };
                        let taken = block.size().rows;
                        proof {
                            block.lemma_wf();
                        }
                        if taken > remaining_rows {
                            proof {
                                assert(left_free(es, cols, start, greedy_count, j + 1) is None);
                                if left_free(es, cols, start, greedy_count, n) is Some {
                                    lemma_left_free_earlier(
                                        es,
                                        cols,
                                        start,
                                        greedy_count,
                                        j + 1,
                                        n,
                                    );
                                }
                            }
                            return Err(LayoutError::OutOfSpace);
                        }
                        proof {
                            assert(part(es, cols, size.rows, greedy_count, j as int) == Some(
                                block.content(),
                            ));
                        }
                        remaining_rows = remaining_rows - taken;
                        blocks.push(block);
                    },
                    None => {
                        proof {
                            assert(false);
                        }
                        return Err(LayoutError::NoChildren);
                    },
                }
            },
        }
        j = j + 1;
    }
    let empty: Vec<TextLine> = Vec::new();
    let mut block: TextBlock<K, M> = TextBlock::new(empty, cols, 0);
    let mut rows: usize = 0;
    let ghost parts = blocks@;
    proof {
        assert(block.content() =~= stack(es, cols, size.rows, greedy_count, 0));
    }
    for piece in it: blocks
        invariant
            it.seq() == parts,
            es == elements,
            parts.len() == n,
            n == es.len(),
            cols == size.cols,
            left_fixed(es, cols, size.rows, n) == Some(start),
            left_free(es, cols, start, greedy_count, n) is Some,
            forall|k: int|
                0 <= k < parts.len() ==> (#[trigger] parts[k]).wf() && parts[k].cols() == cols
                    && parts[k].is_inert() && part(es, cols, size.rows, greedy_count, k) == Some(
                    parts[k].content(),
                ),
            block.wf(),
            block.is_inert(),
            block.cols() == cols,
            block.rows() == rows,
            block.content() == stack(es, cols, size.rows, greedy_count, it.index() as int),
            rows <= size.rows,
    {
        let ghost k = it.index() as int;
        proof {
            assert(piece == parts[k]);
            piece.lemma_wf();
            block.lemma_wf();
            lemma_left_free_earlier(es, cols, start, greedy_count, k + 1, n);
            lemma_stack_len(es, cols, size.rows, greedy_count, k + 1);
            assert(stack(es, cols, size.rows, greedy_count, k + 1) == block.content()
                + piece.content());
        }
        if !block.can_concat(crate::Direction::Vertical, &piece) || piece.size().rows > size.rows
            - rows {
            proof {
                assert(false);
            }
            return Err(LayoutError::Unjoinable);
        }
        rows = rows + piece.size().rows;
        let ghost above = block;
        block = block.vconcat(piece);
        proof {
            lemma_stacked_inert(&above, &piece, &block);
        }
    }
    Ok(block)
}

/// The block that shows the tree of elements `ui` in a block as wide as
/// `size` and no higher: a line in one row, text in the rows that it asks
/// for or that there are, and the elements of a box one below the other.
pub fn compose_image<K, M>(ui: Element, size: Size) -> (block: Result<TextBlock<K, M>, LayoutError>)
    ensures
        block is Ok <==> image(ui, size.cols, size.rows) is Some,
        block matches Err(error) ==> error == LayoutError::OutOfSpace,
        block matches Ok(block) ==> block.wf() && block.is_inert() && block.cols() == size.cols
            && Some(block.content()) == image(ui, size.cols, size.rows),
        ui.content matches Content::Line(line) ==> (block matches Ok(block) && block.rows() == 1),
        ui.content matches Content::Text(text) ==> (block matches Ok(block) && block.rows()
            == text_rows(ui.size.height, size.rows)),
        ui.content is VBox ==> (block matches Ok(block) ==> block.rows() <= size.rows),
    decreases ui, 1int,
{
    let height = ui.size.height;
    match ui.content {
        Content::Line(line) => Ok(compose_line(line, size)),
        Content::Text(text) => {
            let block = compose_text(text, size, height);
            proof {
                assert(block.content() =~= image(ui, size.cols, size.rows)->0);
            }
            Ok(block)
        },
        Content::VBox(elements) => compose_vbox(elements, size),
    }
}

} // verus!
