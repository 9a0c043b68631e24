use std::cell::RefCell;

use text_ui::backend::element::split_line_graphemes;
use text_ui::backend::{changed_rows, cursor_goto, FrameBuffer};
use text_ui::grapheme::{count_graphemes, graphemes, take_graphemes};
use text_ui::indextree::IndexTree;
use text_ui::input::{Key, MouseButton, MouseEvent};
use text_ui::ir::{ContentID, MouseTarget, Segment, TextBlock, TextLine};
use text_ui::widget::layout::{allot, greedy_sizes, stack, Linear};
use text_ui::widget::{check_size, LayoutError, Line, Log, RenderContext, ShouldPropagate, Widget};
use text_ui::GrowthPolicy::{FixedSize, Greedy};
use text_ui::{Color, Direction, FullGrowthPolicy, GrowthPolicy, Name, Pos, RenderBound, Size};

type KeyHandler = Box<dyn Fn(Key) -> ShouldPropagate>;
type MouseHandler = Box<dyn Fn(Pos, MouseEvent) -> ShouldPropagate>;
type Block = TextBlock<KeyHandler, MouseHandler>;

fn id() -> ContentID {
    ContentID::new(None, "Test", "Text")
}

fn texts_of(line: &TextLine) -> Vec<(String, usize)> {
    line.segments.iter().map(|s| (s.text.clone(), s.len)).collect()
}

fn row_text(line: &TextLine) -> String {
    line.segments.iter().map(|s| s.text.as_str()).collect()
}

fn block_of(lines: &[&str], width: Option<usize>, height: Option<usize>) -> Block {
    let lines = lines.iter().map(|l| l.to_string()).collect();
    Block::clip_lines(None, "Test", "Text", lines, RenderBound::new(width, height))
}

fn assert_grid(block: &Block) {
    let size = block.size();
    assert_eq!(block.lines().len(), size.rows);
    for line in block.lines() {
        assert_eq!(line.len, size.cols);
        assert_eq!(line.segments.iter().map(|s| s.len).sum::<usize>(), size.cols);
    }
}

/// A line of text that keeps its one row in a vertical layout, or takes a
/// share of the rows.
struct Label {
    text: &'static str,
    policy: FullGrowthPolicy,
}

impl Label {
    fn fixed(text: &'static str) -> Self {
        Label { text, policy: FullGrowthPolicy::fixed_height() }
    }

    fn greedy(text: &'static str) -> Self {
        Label { text, policy: FullGrowthPolicy::default() }
    }
}

impl Widget<KeyHandler, MouseHandler> for Label {
    fn render(&self, ctx: RenderContext) -> Result<Block, LayoutError> {
        let ctx = if self.policy.height == GrowthPolicy::FixedSize {
            ctx.with_bound(ctx.bound().constrain_height(1))
        } else {
            ctx
        };
        Ok(ctx.clip_lines("Text", vec![self.text.to_string()]))
    }

    fn name(&self) -> Option<Name> {
        None
    }

    fn widget_type(&self) -> &'static str {
        "Label"
    }

    fn growth_policy(&self) -> FullGrowthPolicy {
        self.policy
    }
}

/// A widget that renders a block of a size of its own, whatever the bound.
struct Stubborn {
    cols: usize,
    rows: usize,
}

impl Widget<KeyHandler, MouseHandler> for Stubborn {
    fn render(&self, _ctx: RenderContext) -> Result<Block, LayoutError> {
        Ok(Block::clip_lines(None, "Test", "Text", vec![], RenderBound::new(Some(self.cols), Some(self.rows))))
    }

    fn name(&self) -> Option<Name> {
        None
    }

    fn widget_type(&self) -> &'static str {
        "Stubborn"
    }

    fn growth_policy(&self) -> FullGrowthPolicy {
        FullGrowthPolicy::default()
    }
}

#[test]
fn graphemes_are_clusters_not_chars() {
    let cells = graphemes("a\u{310}e\u{301}o\u{308}\u{332}");
    assert_eq!(cells, vec!["a\u{310}", "e\u{301}", "o\u{308}\u{332}"]);
    assert_eq!(count_graphemes("a\u{310}e\u{301}o\u{308}\u{332}"), 3);
    assert_eq!(count_graphemes(""), 0);
    assert_eq!(graphemes("a\r\nb"), vec!["a", "\r\n", "b"]);
}

#[test]
fn take_graphemes_keeps_clusters_whole() {
    assert_eq!(take_graphemes("e\u{301}ab", 1), "e\u{301}");
    assert_eq!(take_graphemes("e\u{301}ab", 2), "e\u{301}a");
    assert_eq!(take_graphemes("ab", 5), "ab");
    assert_eq!(take_graphemes("ab", 0), "");
}

#[test]
fn split_line_pads_last_chunk() {
    assert_eq!(split_line_graphemes("abcde", 2), vec!["ab", "cd", "e "]);
    assert_eq!(split_line_graphemes("abcd", 2), vec!["ab", "cd"]);
    assert_eq!(split_line_graphemes("", 3), Vec::<String>::new());
    assert_eq!(split_line_graphemes("a", 4), vec!["a   "]);
}

#[test]
fn split_line_never_cuts_a_cluster() {
    let chunks = split_line_graphemes("e\u{301}e\u{301}e\u{301}", 2);
    assert_eq!(chunks, vec!["e\u{301}e\u{301}", "e\u{301} "]);
    for chunk in &chunks {
        assert_eq!(count_graphemes(chunk), 2);
    }
}

#[test]
fn split_line_round_trip() {
    let text = "abcdefgh\u{1F1F7}\u{1F1FA}x";
    assert_eq!(count_graphemes(text) % 2, 0);
    let chunks = split_line_graphemes(text, 2);
    let joined: String = chunks.concat();
    assert_eq!(joined, text);
    assert_eq!(split_line_graphemes(&joined, 2), chunks);
}

#[test]
fn segment_len_counts_clusters() {
    let segment = Segment::new_id(id(), "e\u{301}a".to_string());
    assert_eq!(segment.len, 2);
    assert_eq!(segment.text, "e\u{301}a");
    let blank = Segment::blank_sized(id(), 3);
    assert_eq!(blank.text, "   ");
    assert_eq!(blank.len, 3);
    let named = Segment::new(Some(4), "Log", "Content", "abc".to_string());
    assert_eq!(named.id.as_tuple(), (Some(4), "Log", "Content"));
    assert_eq!(named.len, 3);
}

#[test]
fn segment_from_str_constrained() {
    let short = Segment::from_str_constrained(id(), "ab", 4);
    assert_eq!((short.text.as_str(), short.len), ("ab  ", 4));
    let long = Segment::from_str_constrained(id(), "abcdef", 4);
    assert_eq!((long.text.as_str(), long.len), ("abcd", 4));
    let exact = Segment::from_str_constrained(id(), "abcd", 4);
    assert_eq!((exact.text.as_str(), exact.len), ("abcd", 4));
}

#[test]
fn clip_truncates_the_overlapping_segment() {
    let mut line = TextLine::from(Segment::new_id(id(), "ab".to_string()));
    line.push(Segment::new_id(id(), "cdef".to_string()));
    assert_eq!(line.len, 6);
    let clipped = line.clip(5);
    assert_eq!(clipped.len, 5);
    assert_eq!(texts_of(&clipped), vec![("ab".to_string(), 2), ("cde".to_string(), 3)]);
}

#[test]
fn clip_pads_a_short_line() {
    let line = TextLine::from(Segment::new_id(id(), "ab".to_string()));
    let clipped = line.clip(5);
    assert_eq!(clipped.len, 5);
    assert_eq!(texts_of(&clipped), vec![("ab".to_string(), 2), ("   ".to_string(), 3)]);
}

#[test]
fn clip_drops_segments_past_the_end() {
    let mut line = TextLine::from(Segment::new_id(id(), "ab".to_string()));
    line.push(Segment::new_id(id(), "cd".to_string()));
    line.push(Segment::new_id(id(), "ef".to_string()));
    let clipped = line.clone().clip(2);
    assert_eq!(texts_of(&clipped), vec![("ab".to_string(), 2)]);
    let nothing = line.clip(0);
    assert_eq!(nothing.len, 0);
    assert!(nothing.segments.is_empty());
}

#[test]
fn clip_twice_is_clip_once() {
    for target in [0usize, 3, 5, 6, 9] {
        let mut line = TextLine::from(Segment::new_id(id(), "ab".to_string()));
        line.push(Segment::new_id(id(), "cdef".to_string()));
        let once = line.clip(target);
        let twice = once.clone().clip(target);
        assert_eq!(texts_of(&once), texts_of(&twice));
        assert_eq!(once.len, twice.len);
    }
}

#[test]
fn line_hconcat_joins_segments() {
    let mut left = TextLine::from(Segment::new_id(id(), "ab".to_string()));
    let right = TextLine::from(Segment::new_id(id(), "cde".to_string()));
    left.hconcat(right);
    assert_eq!(left.len, 5);
    assert_eq!(row_text(&left), "abcde");
}

#[test]
fn clip_lines_keeps_the_width() {
    let block = block_of(&["a", "abcdef", ""], Some(3), None);
    assert_eq!(block.size(), Size::new(3, 3));
    assert_grid(&block);
    let rows: Vec<String> = block.lines().iter().map(row_text).collect();
    assert_eq!(rows, vec!["a  ", "abc", "   "]);
}

#[test]
fn clip_lines_natural_width_and_height() {
    let block = block_of(&["ab", "abcd"], None, Some(3));
    assert_eq!(block.size(), Size::new(4, 3));
    assert_grid(&block);
    let rows: Vec<String> = block.lines().iter().map(row_text).collect();
    assert_eq!(rows, vec!["ab  ", "abcd", "    "]);
    let cut = block_of(&["ab", "abcd", "x"], None, Some(1));
    assert_eq!(cut.size(), Size::new(4, 1));
    assert_eq!(row_text(&cut.lines()[0]), "ab  ");
}

#[test]
fn clip_lines_of_nothing() {
    let block = block_of(&[], None, None);
    assert_eq!(block.size(), Size::new(0, 0));
    assert_grid(&block);
}

#[test]
fn wrap_lines_reflows() {
    let lines = vec!["abcde".to_string(), "".to_string(), "xy".to_string()];
    let block = Block::wrap_lines(id(), lines, RenderBound::new(Some(2), None));
    assert_eq!(block.size(), Size::new(2, 5));
    assert_grid(&block);
    let rows: Vec<String> = block.lines().iter().map(row_text).collect();
    assert_eq!(rows, vec!["ab", "cd", "e ", "  ", "xy"]);
}

#[test]
fn wrap_lines_height_and_zero_width() {
    let lines = vec!["abcde".to_string()];
    let block = Block::wrap_lines(id(), lines, RenderBound::new(Some(2), Some(2)));
    let rows: Vec<String> = block.lines().iter().map(row_text).collect();
    assert_eq!(rows, vec!["ab", "cd"]);
    let padded = Block::wrap_lines(id(), vec!["ab".to_string()], RenderBound::new(None, Some(3)));
    assert_eq!(padded.size(), Size::new(2, 3));
    assert_grid(&padded);
    let flat = Block::wrap_lines(id(), vec!["ab".to_string()], RenderBound::new(Some(0), None));
    assert_eq!(flat.size(), Size::new(0, 1));
    assert_grid(&flat);
}

#[test]
fn index_tree_chains_run_inner_to_outer() {
    let mut tree: IndexTree<&str> = IndexTree::new();
    assert_eq!(tree.push(Some(1), "inner"), 0);
    assert_eq!(tree.push(None, "container"), 1);
    let mut sibling: IndexTree<&str> = IndexTree::new();
    assert_eq!(sibling.push(Some(2), "other leaf"), 0);
    assert_eq!(tree.append(&mut sibling), 2);
    assert_eq!(tree.push(None, "root"), 3);
    let mut chain = Vec::new();
    let mut iter = tree.get_iter(&1);
    while let Some(item) = iter.next() {
        chain.push(*item);
    }
    assert_eq!(chain, vec!["inner", "container", "root"]);
    let mut chain = Vec::new();
    let mut iter = tree.get_iter(&2);
    while let Some(item) = iter.next() {
        chain.push(*item);
    }
    assert_eq!(chain, vec!["other leaf", "root"]);
    assert!(tree.get_iter(&9).next().is_none());
    assert!(tree.get_iter_idx(4).next().is_none());
    assert_eq!(tree._get(&1).map(|(p, i)| (p, *i)), Some((Some(1), "inner")));
    assert_eq!(tree._get_idx(3).map(|(p, i)| (p, *i)), Some((None, "root")));
    assert!(tree._get_idx(4).is_none());
}

#[test]
fn index_tree_name_collision_last_wins() {
    let mut tree: IndexTree<&str> = IndexTree::new();
    tree.push(Some(7), "first");
    tree.push(Some(7), "second");
    let mut iter = tree.get_iter(&7);
    assert_eq!(iter.next(), Some(&"second"));
    assert_eq!(iter.next(), None);
}

#[test]
fn index_tree_append_renumbers() {
    let mut left: IndexTree<&str> = IndexTree::new();
    left.push(Some(1), "a");
    left.push(None, "a-box");
    let mut right: IndexTree<&str> = IndexTree::new();
    right.push(Some(2), "b");
    right.push(Some(1), "b-box");
    assert_eq!(left.append(&mut right), 2);
    assert_eq!(left.len(), 4);
    assert_eq!(right.len(), 0);
    let mut iter = left.get_iter(&2);
    assert_eq!(iter.next(), Some(&"b"));
    assert_eq!(iter.next(), Some(&"b-box"));
    assert_eq!(iter.next(), None);
    let mut iter = left.get_iter(&1);
    assert_eq!(iter.next(), Some(&"b-box"));
    assert_eq!(iter.next(), None);
    let top = left.push(None, "root");
    assert_eq!(top, 4);
    let mut iter = left.get_iter_idx(0);
    assert_eq!(iter.next(), Some(&"a"));
    assert_eq!(iter.next(), Some(&"a-box"));
    assert_eq!(iter.next(), Some(&"root"));
    assert_eq!(iter.next(), None);
}

#[test]
fn index_tree_map_keeps_the_links() {
    let mut tree: IndexTree<usize> = IndexTree::new();
    tree.push(Some(1), 10);
    tree.push(None, 20);
    let mapped = tree.map(|n| n + 1);
    let mut iter = mapped.get_iter(&1);
    assert_eq!(iter.next(), Some(&11));
    assert_eq!(iter.next(), Some(&21));
    assert_eq!(iter.next(), None);
}

#[test]
fn key_dispatch_runs_inner_first_and_stops() {
    let calls: RefCell<Vec<&'static str>> = RefCell::new(Vec::new());
    let make = |stop: bool| -> Block {
        let inner: KeyHandler = Box::new(move |_| {
            if stop {
                ShouldPropagate::Stop
            } else {
                ShouldPropagate::Continue
            }
        });
        let outer: KeyHandler = Box::new(|_| ShouldPropagate::Continue);
        block_of(&["x"], Some(1), Some(1)).add_key_handler(Some(5), inner).add_key_handler(None, outer)
    };
    let passing = make(false);
    let offered = passing.handle_key(&5, Key::Char('a'), |cb, key| {
        calls.borrow_mut().push("call");
        cb(key)
    });
    assert_eq!(offered, 2);
    assert_eq!(calls.borrow().len(), 2);
    calls.borrow_mut().clear();
    let stopping = make(true);
    let offered = stopping.handle_key(&5, Key::Char('a'), |cb, key| {
        calls.borrow_mut().push("call");
        cb(key)
    });
    assert_eq!(offered, 1);
    assert_eq!(calls.borrow().len(), 1);
    assert_eq!(stopping.handle_key(&6, Key::Esc, |cb, key| cb(key)), 0);
}

#[test]
fn key_dispatch_order_is_observable() {
    let order: std::rc::Rc<RefCell<Vec<&'static str>>> = Default::default();
    let (a, b) = (order.clone(), order.clone());
    let inner: KeyHandler = Box::new(move |_| {
        a.borrow_mut().push("inner");
        ShouldPropagate::Continue
    });
    let outer: KeyHandler = Box::new(move |_| {
        b.borrow_mut().push("outer");
        ShouldPropagate::Stop
    });
    let leaf = block_of(&["x"], Some(1), Some(1)).add_key_handler(Some(1), inner);
    let sibling = block_of(&["y"], Some(1), Some(1));
    let boxed = leaf.vconcat(sibling).add_key_handler(Some(2), outer);
    assert_eq!(boxed.handle_key(&1, Key::Char('k'), |cb, key| cb(key)), 2);
    assert_eq!(*order.borrow(), vec!["inner", "outer"]);
    order.borrow_mut().clear();
    assert_eq!(boxed.handle_key(&2, Key::Char('k'), |cb, key| cb(key)), 1);
    assert_eq!(*order.borrow(), vec!["outer"]);
}

#[test]
fn cursor_moves_with_vconcat() {
    let a = block_of(&["abc"], Some(3), Some(1)).add_cursor(1, Pos::new(2, 0));
    let b = block_of(&["x", "y", "z"], Some(3), Some(3)).add_cursor(2, Pos::new(1, 1));
    let merged = b.vconcat(a);
    assert_eq!(merged.size(), Size::new(3, 4));
    assert_grid(&merged);
    assert_eq!(merged.get_cursor(1), Some(Pos::new(2, 3)));
    assert_eq!(merged.get_cursor(2), Some(Pos::new(1, 1)));
    assert_eq!(merged.get_cursor(3), None);
}

#[test]
fn cursor_moves_by_columns_with_hconcat() {
    let left = block_of(&["ab", "cd"], Some(2), Some(2));
    let right = block_of(&["xyz", "uvw"], Some(3), Some(2)).add_cursor(1, Pos::new(1, 1));
    let merged = left.hconcat(right);
    assert_eq!(merged.size(), Size::new(5, 2));
    assert_grid(&merged);
    let rows: Vec<String> = merged.lines().iter().map(row_text).collect();
    assert_eq!(rows, vec!["abxyz", "cduvw"]);
    assert_eq!(merged.get_cursor(1), Some(Pos::new(3, 1)));
}

#[test]
fn cursor_of_second_block_wins() {
    let a = block_of(&["a"], Some(1), Some(1)).add_cursor(1, Pos::new(0, 0));
    let b = block_of(&["b"], Some(1), Some(1)).add_cursor(1, Pos::new(1, 0));
    assert_eq!(a.concat_dir(Direction::Vertical, b).get_cursor(1), Some(Pos::new(1, 1)));
}

#[test]
fn can_concat_wants_equal_cross_size() {
    let a = block_of(&["ab"], Some(2), Some(1));
    let b = block_of(&["abc"], Some(3), Some(1));
    assert!(!a.can_concat(Direction::Vertical, &b));
    assert!(a.can_concat(Direction::Horizontal, &b));
}

#[test]
fn mouse_dispatch_sees_positions_from_the_origin() {
    let seen: std::rc::Rc<RefCell<Vec<(&'static str, Pos)>>> = Default::default();
    let (a, b, c) = (seen.clone(), seen.clone(), seen.clone());
    let left: MouseHandler = Box::new(move |pos, _| {
        a.borrow_mut().push(("left", pos));
        ShouldPropagate::Continue
    });
    let right: MouseHandler = Box::new(move |pos, _| {
        b.borrow_mut().push(("right", pos));
        ShouldPropagate::Continue
    });
    let root: MouseHandler = Box::new(move |pos, _| {
        c.borrow_mut().push(("root", pos));
        ShouldPropagate::Stop
    });
    let l = block_of(&["ab", "cd"], Some(2), Some(2)).add_mouse_handler(Some(1), left);
    let r = block_of(&["xyz", "uvw"], Some(3), Some(2)).add_mouse_handler(Some(2), right);
    let ui = l.hconcat(r).add_mouse_handler(None, root);
    let invoke = |cb: &MouseHandler, pos: Pos, ev: MouseEvent| cb(pos, ev);
    let offered = ui.handle_mouse(MouseEvent::Press(MouseButton::Left, 4, 2), invoke);
    assert_eq!(offered, 2);
    assert_eq!(*seen.borrow(), vec![("right", Pos::new(1, 1)), ("root", Pos::new(3, 1))]);
    seen.borrow_mut().clear();
    assert_eq!(ui.handle_mouse(MouseEvent::Release(1, 1), invoke), 2);
    assert_eq!(*seen.borrow(), vec![("left", Pos::new(0, 0)), ("root", Pos::new(0, 0))]);
    assert_eq!(ui.handle_mouse(MouseEvent::Hold(6, 1), invoke), 0);
    assert_eq!(ui.handle_mouse(MouseEvent::Hold(0, 1), invoke), 0);
    assert_eq!(ui.handle_mouse(MouseEvent::Hold(1, 3), invoke), 0);
}

#[test]
fn mouse_dispatch_below_a_vconcat() {
    let seen: std::rc::Rc<RefCell<Vec<Pos>>> = Default::default();
    let a = seen.clone();
    let lower: MouseHandler = Box::new(move |pos, _| {
        a.borrow_mut().push(pos);
        ShouldPropagate::Stop
    });
    let top = block_of(&["ab", "cd"], Some(2), Some(2));
    let bottom = block_of(&["xy"], Some(2), Some(1)).add_mouse_handler(Some(1), lower);
    let ui = top.vconcat(bottom);
    let invoke = |cb: &MouseHandler, pos: Pos, ev: MouseEvent| cb(pos, ev);
    assert_eq!(ui.handle_mouse(MouseEvent::Press(MouseButton::Left, 2, 3), invoke), 1);
    assert_eq!(*seen.borrow(), vec![Pos::new(1, 0)]);
    assert_eq!(ui.handle_mouse(MouseEvent::Press(MouseButton::Left, 2, 2), invoke), 0);
}

#[test]
fn mouse_event_position_is_zero_based() {
    assert_eq!(MouseEvent::Press(MouseButton::Right, 3, 7).position(), Some(Pos::new(2, 6)));
    assert_eq!(MouseEvent::Release(1, 1).position(), Some(Pos::new(0, 0)));
    assert_eq!(MouseEvent::Hold(0, 4).position(), None);
    assert_eq!(MouseEvent::Hold(4, 0).position(), None);
}

#[test]
fn render_frame_resolves_styles() {
    let block = block_of(&["ab"], Some(3), Some(1)).add_cursor(9, Pos::new(1, 0));
    let frame = block.render_frame(
        |id: ContentID| if id.class == "Text" { (Some(Color::Red), None) } else { (None, None) },
        Some(9),
    );
    assert_eq!(frame.size, Size::new(3, 1));
    assert_eq!(frame.focus, Some(Pos::new(1, 0)));
    assert_eq!(frame.image, vec![vec![(Color::Red, Color::Reset, "ab", 2), (Color::Red, Color::Reset, " ", 1)]]);
    let unfocused = block.render_frame(|_| (None, Some(Color::Rgb(1, 2, 3))), None);
    assert_eq!(unfocused.focus, None);
    assert_eq!(unfocused.image[0][0].0, Color::Reset);
    assert_eq!(unfocused.image[0][0].1, Color::Rgb(1, 2, 3));
    assert_eq!(block.render_frame(|_| (None, None), Some(8)).focus, None);
}

#[test]
fn greedy_sizes_give_the_rest_to_the_first() {
    assert_eq!(greedy_sizes(10, 3), vec![4, 3, 3]);
    assert_eq!(greedy_sizes(11, 3), vec![4, 4, 3]);
    assert_eq!(greedy_sizes(9, 3), vec![3, 3, 3]);
    assert_eq!(greedy_sizes(2, 5), vec![1, 1, 0, 0, 0]);
    assert_eq!(greedy_sizes(0, 2), vec![0, 0]);
    for (remaining, count) in [(17usize, 4usize), (100, 7), (3, 3)] {
        assert_eq!(greedy_sizes(remaining, count).iter().sum::<usize>(), remaining);
    }
}

#[test]
fn allot_keeps_fixed_sizes_in_place() {
    let policies = vec![Greedy, FixedSize, Greedy, FixedSize, Greedy];
    let natural = vec![99, 1, 99, 2, 99];
    assert_eq!(allot(13, &policies, &natural), Ok(vec![4, 1, 3, 2, 3]));
    assert_eq!(allot(3, &policies, &natural), Ok(vec![0, 1, 0, 2, 0]));
    assert_eq!(allot(2, &policies, &natural), Err(LayoutError::OutOfSpace));
    assert_eq!(allot(9, &vec![FixedSize, FixedSize], &vec![1, 1]), Ok(vec![1, 1]));
    assert_eq!(allot(0, &vec![], &vec![]), Ok(vec![]));
}

#[test]
fn vbox_of_two_fixed_lines() {
    let (foo, bar) = (Label::fixed("foo"), Label::fixed("bar"));
    let vbox = Linear::vbox(vec![&foo, &bar]);
    let ctx = RenderContext::new(RenderBound::new(Some(3), Some(2)), None, "Test");
    let block = vbox.render(ctx).unwrap();
    assert_eq!(block.size(), Size::new(3, 2));
    assert_eq!(block.lines().len(), 2);
    let rows: Vec<(String, usize)> = block.lines().iter().map(|l| (row_text(l), l.len)).collect();
    assert_eq!(rows, vec![("foo".to_string(), 3), ("bar".to_string(), 3)]);
}

#[test]
fn vbox_greedy_child_absorbs_the_extra_row() {
    let (foo, bar) = (Label::fixed("foo"), Label::greedy("bar"));
    let vbox = Linear::vbox(vec![&foo, &bar]);
    let ctx = RenderContext::new(RenderBound::new(Some(3), Some(3)), None, "Test");
    let block = vbox.render(ctx).unwrap();
    assert_eq!(block.size(), Size::new(3, 3));
    assert_grid(&block);
    let rows: Vec<String> = block.lines().iter().map(row_text).collect();
    assert_eq!(rows, vec!["foo", "bar", "   "]);
    let (foo, bar) = (Label::greedy("foo"), Label::fixed("bar"));
    let vbox = Linear::vbox(vec![&foo, &bar]);
    let rows: Vec<String> = vbox.render(ctx).unwrap().lines().iter().map(row_text).collect();
    assert_eq!(rows, vec!["foo", "   ", "bar"]);
}

#[test]
fn hbox_with_separator() {
    let (left, right, bar) = (Label::greedy("ab"), Label::greedy("cd"), Line::vertical());
    let hbox = Linear::hbox(vec![&left, &bar, &right]);
    let ctx = RenderContext::new(RenderBound::new(Some(6), Some(2)), None, "Test");
    let block = hbox.render(ctx).unwrap();
    assert_eq!(block.size(), Size::new(6, 2));
    assert_grid(&block);
    let rows: Vec<String> = block.lines().iter().map(row_text).collect();
    assert_eq!(rows, vec!["ab │cd", "   │  "]);
}

#[test]
fn nested_layouts() {
    let (a, b, c, rule) = (Label::greedy("a"), Label::greedy("b"), Label::fixed("c"), Line::horizontal());
    let top = Linear::hbox(vec![&a, &b]);
    let all = Linear::vbox(vec![&top, &rule, &c]);
    let ctx = RenderContext::new(RenderBound::new(Some(4), Some(4)), None, "Test");
    let block = all.render(ctx).unwrap();
    assert_grid(&block);
    let rows: Vec<String> = block.lines().iter().map(row_text).collect();
    assert_eq!(rows, vec!["a b ", "    ", "────", "c   "]);
}

#[test]
fn layout_errors() {
    let foo = Label::fixed("foo");
    let vbox = Linear::vbox(vec![&foo]);
    let no_height = RenderContext::new(RenderBound::new(Some(3), None), None, "Test");
    assert_eq!(vbox.render(no_height).err(), Some(LayoutError::Unconstrained(Direction::Vertical)));
    let no_width = RenderContext::new(RenderBound::new(None, Some(3)), None, "Test");
    assert_eq!(vbox.render(no_width).err(), Some(LayoutError::Unconstrained(Direction::Horizontal)));
    let full = RenderContext::new(RenderBound::new(Some(3), Some(3)), None, "Test");
    let empty: Linear<KeyHandler, MouseHandler> = Linear::vbox(vec![]);
    assert_eq!(empty.render(full).err(), Some(LayoutError::NoChildren));
    let (a, b) = (Label::fixed("a"), Label::fixed("b"));
    let tight = RenderContext::new(RenderBound::new(Some(3), Some(1)), None, "Test");
    assert_eq!(Linear::vbox(vec![&a, &b]).render(tight).err(), Some(LayoutError::OutOfSpace));
    let stubborn = Stubborn { cols: 2, rows: 1 };
    assert_eq!(
        Linear::vbox(vec![&stubborn]).render(full).err(),
        Some(LayoutError::BadWidth { expected: 3, found: 2 })
    );
    let stubborn = Stubborn { cols: 3, rows: 1 };
    assert_eq!(
        Linear::vbox(vec![&stubborn]).render(full).err(),
        Some(LayoutError::BadHeight { expected: 3, found: 1 })
    );
}

#[test]
fn render_sized_holds_blocks_to_the_bound() {
    let ctx = RenderContext::new(RenderBound::new(None, None), Some(3), "Test");
    let stubborn = Stubborn { cols: 2, rows: 2 };
    assert!(ctx.render_sized(RenderBound::new(Some(2), None), &stubborn).is_ok());
    assert!(ctx.render_sized(RenderBound::new(None, None), &stubborn).is_ok());
    assert_eq!(
        ctx.render_sized(RenderBound::new(Some(2), Some(3)), &stubborn).err(),
        Some(LayoutError::BadHeight { expected: 3, found: 2 })
    );
    assert_eq!(
        check_size::<KeyHandler, MouseHandler>(RenderBound::new(Some(1), None), Err(LayoutError::NoChildren)).err(),
        Some(LayoutError::NoChildren)
    );
}

#[test]
fn stack_joins_in_order() {
    let blocks = vec![block_of(&["a"], Some(1), Some(1)), block_of(&["b"], Some(1), Some(1)), block_of(&["c"], Some(1), Some(1))];
    let column = stack(Direction::Vertical, blocks).unwrap();
    let rows: Vec<String> = column.lines().iter().map(row_text).collect();
    assert_eq!(rows, vec!["a", "b", "c"]);
    let blocks = vec![block_of(&["a"], Some(1), Some(1)), block_of(&["bc"], Some(2), Some(1))];
    assert_eq!(stack(Direction::Vertical, blocks).err(), Some(LayoutError::Unjoinable));
    assert_eq!(stack::<KeyHandler, MouseHandler>(Direction::Vertical, vec![]).err(), Some(LayoutError::NoChildren));
}

#[test]
fn line_widget_fills_its_axis() {
    let ctx = RenderContext::new(RenderBound::new(Some(3), Some(2)), None, "Test");
    let row: Block = Line::horizontal().block(ctx).unwrap();
    assert_eq!(row.size(), Size::new(3, 1));
    assert_eq!(row_text(&row.lines()[0]), "───");
    let column: Block = Line::vertical().block(ctx).unwrap();
    assert_eq!(column.size(), Size::new(1, 2));
    assert_eq!(row_text(&column.lines()[1]), "│");
    let free = RenderContext::new(RenderBound::new(None, Some(2)), None, "Test");
    assert_eq!(
        Line::horizontal().block::<KeyHandler, MouseHandler>(free).err(),
        Some(LayoutError::Unconstrained(Direction::Horizontal))
    );
    assert_eq!(Line::horizontal().policy(), FullGrowthPolicy::fixed_height());
    assert_eq!(Line::vertical().policy(), FullGrowthPolicy::fixed_width());
}

#[test]
fn changed_rows_lists_what_differs() {
    let last: Vec<String> = vec!["a".into(), "b".into(), "c".into()];
    let next: Vec<String> = vec!["a".into(), "x".into(), "c".into(), "d".into()];
    assert_eq!(changed_rows(&last, &next), vec![1]);
    assert_eq!(changed_rows(&next, &last), vec![1]);
    assert_eq!(changed_rows(&last, &last), Vec::<usize>::new());
}

#[test]
fn frame_buffer_paints_only_changes() {
    let mut buffer = FrameBuffer::new(Size::new(2, 3));
    assert_eq!(buffer.size(), Size::new(2, 3));
    let first: Vec<String> = vec!["ab".into(), "".into(), "ef".into()];
    assert_eq!(buffer.paint(first.clone()), vec![0, 2]);
    assert_eq!(buffer.paint(first.clone()), Vec::<usize>::new());
    let second: Vec<String> = vec!["ab".into(), "cd".into(), "ef".into()];
    assert_eq!(buffer.paint(second.clone()), vec![1]);
    buffer.resize(Size::new(2, 4));
    let third: Vec<String> = vec!["ab".into(), "cd".into(), "ef".into(), "".into()];
    assert_eq!(buffer.paint(third), Vec::<usize>::new());
    buffer.resize(Size::new(2, 1));
    assert_eq!(buffer.paint(second), Vec::<usize>::new());
}

#[test]
fn cursor_goto_counts_from_one() {
    assert_eq!(cursor_goto(Some(Pos::new(0, 0))), Some((1, 1)));
    assert_eq!(cursor_goto(Some(Pos::new(4, 2))), Some((5, 3)));
    assert_eq!(cursor_goto(Some(Pos::new(70_000, 65_534))), Some((65_535, 65_535)));
    assert_eq!(cursor_goto(None), None);
}

#[test]
fn mouse_target_is_plain_data() {
    let target = MouseTarget { name: Some(1), origin: Pos::new(1, 2), hidden: Pos::new(0, 0), handler: 5u8 };
    assert_eq!(target.origin + Pos::new(2, 2), Pos::new(3, 4));
    assert_eq!(Pos::new(3, 4) - target.origin, Pos::new(2, 2));
}

#[test]
fn index_tree_items_change_in_place() {
    let mut tree: IndexTree<u32> = IndexTree::new();
    tree.push(Some(1), 10);
    tree.push(None, 20);
    for item in tree.iter_all_mut() {
        *item += 1;
    }
    assert_eq!(tree.len(), 2);
    let mut chain = Vec::new();
    let mut iter = tree.get_iter(&1);
    while let Some(item) = iter.next() {
        chain.push(*item);
    }
    assert_eq!(chain, vec![11, 21]);
}

#[test]
fn vbox_of_three_logs_gives_the_rest_to_the_first() {
    let (mut a, mut b, mut c) = (Log::new(None), Log::new(None), Log::new(None));
    a.log_msg("a");
    b.log_msg("b");
    c.log_msg("c");
    let vbox: Linear<KeyHandler, MouseHandler> = Linear::vbox(vec![&a, &b, &c]);
    let ctx = RenderContext::new(RenderBound::new(Some(1), Some(4)), None, "Test");
    let block = vbox.render(ctx).unwrap();
    assert_eq!(block.size(), Size::new(1, 4));
    assert_grid(&block);
    let rows: Vec<String> = block.lines().iter().map(row_text).collect();
    assert_eq!(rows[2], "b");
    assert_eq!(rows[3], "c");
    assert!(rows[..2].contains(&"a".to_string()));
}

#[test]
fn layout_passes_on_what_a_child_misses() {
    let (foo, odd) = (Label::fixed("foo"), Stubborn { cols: 2, rows: 1 });
    let vbox = Linear::vbox(vec![&foo, &odd]);
    let ctx = RenderContext::new(RenderBound::new(Some(3), Some(4)), None, "Test");
    assert_eq!(vbox.render(ctx).err(), Some(LayoutError::BadWidth { expected: 3, found: 2 }));
    let (tall, foo) = (Stubborn { cols: 3, rows: 5 }, Label::fixed("foo"));
    let vbox = Linear::vbox(vec![&tall, &foo]);
    assert_eq!(vbox.render(ctx).err(), Some(LayoutError::BadHeight { expected: 3, found: 5 }));
}

#[test]
fn a_cursor_may_lie_anywhere() {
    let block = block_of(&["ab"], Some(2), Some(1)).add_cursor(4, Pos::new(7, 9));
    assert_eq!(block.get_cursor(4), Some(Pos::new(7, 9)));
    assert_eq!(block.size(), Size::new(2, 1));
    let above = block_of(&["xy", "zw"], Some(2), Some(2));
    assert!(above.can_concat(Direction::Vertical, &block));
    assert_eq!(above.vconcat(block).get_cursor(4), Some(Pos::new(7, 11)));
    let far = block_of(&["ab"], Some(2), Some(1)).add_cursor(4, Pos::new(0, usize::MAX));
    let above = block_of(&["xy"], Some(2), Some(1));
    assert!(!above.can_concat(Direction::Vertical, &far));
    assert!(above.can_concat(Direction::Horizontal, &far));
}
