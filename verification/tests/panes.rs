use text_ui::ast::{Bound as ElementBound, Element, Size as ElementSize};
use text_ui::backend::text::{TextCell, TextGrid};
use text_ui::backend::{build_from, compose_image, Builder, HBox, TextBuilder, Widget as Drawn};
use text_ui::pane::linear::{
    coalesce_bounds, fits, join_bounds, layout_bounds_proportional, place, Linear,
};
use text_ui::pane::{
    clip_content, intersect_boxes, Bound, BoundSize, Direction, Pane, Position, Size, Text,
    TextInput, VBox, Widget,
};
use text_ui::{Key, LayoutError, TextBlock};

type Block = TextBlock<u8, u8>;

fn rows(block: &Block) -> Vec<String> {
    block
        .lines()
        .iter()
        .map(|l| l.segments.iter().map(|s| s.text.as_str()).collect())
        .collect()
}

fn strings(lines: &[&str]) -> Vec<String> {
    lines.iter().map(|l| l.to_string()).collect()
}

struct Word(&'static str);

impl Drawn<TextBuilder> for Word {
    fn build_with(&self, b: &mut TextBuilder) -> TextGrid {
        b.str(self.0)
    }
}

#[test]
fn element_constructors() {
    assert_eq!(ElementSize::rows(3), ElementSize { width: ElementBound::Free, height: ElementBound::Fixed(3) });
    assert_eq!(ElementSize::default(), ElementSize { width: ElementBound::Free, height: ElementBound::Free });
    assert_eq!(ElementBound::default(), ElementBound::Free);
    let text = Element::text(strings(&["a", "b"]));
    assert_eq!(text.size, ElementSize::default());
    let vbox = Element::vbox(vec![Element::line("x"), text]);
    assert_eq!(vbox.size, ElementSize::default());
    assert_eq!(Element::line("x").size, ElementSize::rows(1));
}

#[test]
fn compose_image_of_a_line_and_text() {
    let line: Block = compose_image(Element::line("hello"), text_ui::Size::new(3, 9)).unwrap();
    assert_eq!(line.size(), text_ui::Size::new(3, 1));
    assert_eq!(rows(&line), vec!["hel"]);
    let text: Block =
        compose_image(Element::text(strings(&["abcd", "e"])), text_ui::Size::new(3, 4)).unwrap();
    assert_eq!(rows(&text), vec!["abc", "d  ", "e  ", "   "]);
    let mut fixed = Element::text(strings(&["abcd"]));
    fixed.size.height = ElementBound::Fixed(1);
    let text: Block = compose_image(fixed, text_ui::Size::new(3, 4)).unwrap();
    assert_eq!(rows(&text), vec!["abc"]);
}

#[test]
fn compose_image_of_a_vbox() {
    let ui = Element::vbox(vec![
        Element::text(strings(&["top"])),
        Element::line("rule"),
        Element::text(strings(&["bottom"])),
    ]);
    let block: Block = compose_image(ui, text_ui::Size::new(6, 5)).unwrap();
    assert_eq!(block.size(), text_ui::Size::new(6, 4));
    assert_eq!(rows(&block), vec!["top   ", "      ", "rule  ", "bottom"]);
    let crowded = Element::vbox(vec![Element::line("a"), Element::line("b")]);
    assert_eq!(
        compose_image::<u8, u8>(crowded, text_ui::Size::new(1, 1)).err(),
        Some(LayoutError::OutOfSpace)
    );
    let empty: Block = compose_image(Element::vbox(vec![]), text_ui::Size::new(2, 2)).unwrap();
    assert_eq!(empty.size(), text_ui::Size::new(2, 0));
}

#[test]
fn text_cells() {
    let cells = TextCell::from_line("e\u{301}x");
    assert_eq!(cells.len(), 2);
    assert_eq!(cells[0].to_string(), "e\u{301}");
    assert_eq!(cells[1].to_string(), "x");
    assert_eq!(TextCell::empty().to_string(), " ");
    assert_eq!(TextCell::from_checked("ab").to_string(), "ab");
    assert_eq!(TextCell::from_checked("q").duplicate().to_string(), "q");
    assert_eq!(TextGrid::blank_row(3).len(), 3);
}

#[test]
fn text_grid_joins() {
    let a = TextGrid::str("ab\nc");
    assert_eq!(a.to_string(), "ab\nc ");
    let b = TextGrid::str("x");
    assert_eq!(a.hconcat(&b).to_string(), "abx\nc  ");
    assert_eq!(b.hconcat(&a).to_string(), "xab\n c ");
    assert_eq!(a.vconcat(&b).to_string(), "ab\nc \nx ");
    assert_eq!(TextGrid::empty().to_string(), "");
    assert_eq!(TextGrid::str("").to_string(), "");
    assert!(a.is_well_formed());
    let mut left = TextGrid::str("l");
    let mut right = TextGrid::str("r1\nr2");
    left.happend(&mut right);
    assert_eq!(left.to_string(), "lr1\n r2");
    assert_eq!(right.to_string(), "");
    let mut top = TextGrid::str("t");
    let mut bottom = TextGrid::str("bb");
    top.vappend(&mut bottom);
    assert_eq!(top.to_string(), "t \nbb");
}

#[test]
fn text_builder_draws_boxes() {
    let mut builder = TextBuilder::new();
    let hbox = HBox::from_pair(Word("Hi"), Word("there"));
    assert_eq!(build_from(&mut builder, &hbox).to_string(), "Hithere");
    let more = HBox::from_vec(vec![Word("a\nb"), Word("c"), Word("d")]);
    assert_eq!(more.build_with(&mut builder).to_string(), "acd\nb  ");
    assert_eq!(HBox::<Word>::from_vec(vec![]).build_with(&mut builder).to_string(), "");
    let (one, two) = (builder.string(&"x".to_string()), builder.str("y"));
    assert_eq!(builder.vconcat(&one, &two).to_string(), "x\ny");
    assert_eq!(builder.hconcat(&one, &two).to_string(), "xy");
    assert_eq!(builder.empty().to_string(), "");
}

#[test]
fn boxes_intersect() {
    let a = (Position::new(1, 1), Size::new(4, 3));
    let b = (Position::new(3, 2), Size::new(5, 5));
    assert_eq!(intersect_boxes(a.0, a.1, b.0, b.1), Some((Position::new(3, 2), Size::new(2, 2))));
    assert_eq!(intersect_boxes(b.0, b.1, a.0, a.1), Some((Position::new(3, 2), Size::new(2, 2))));
    let touching = (Position::new(5, 1), Size::new(2, 2));
    assert_eq!(
        intersect_boxes(a.0, a.1, touching.0, touching.1),
        Some((Position::new(5, 1), Size::new(0, 2)))
    );
    let apart = (Position::new(6, 1), Size::new(2, 2));
    assert_eq!(intersect_boxes(a.0, a.1, apart.0, apart.1), None);
    let far = (Position::new(65535, 65535), Size::new(65535, 65535));
    assert_eq!(
        intersect_boxes(far.0, far.1, far.0, far.1),
        Some((Position::new(65535, 65535), Size::new(65535, 65535)))
    );
    assert_eq!(Position::new(1, 2) + Position::new(3, 4), Position::new(4, 6));
    assert_eq!(Position::new(4, 6) - Position::new(3, 4), Position::new(1, 2));
}

#[test]
fn clip_content_windows_text() {
    let content = strings(&["abcdef", "gh", "", "ijklmn"]);
    assert_eq!(clip_content(content.clone(), Position::new(1, 1), Size::new(3, 2)), strings(&["h", ""]));
    assert_eq!(clip_content(content.clone(), Position::new(0, 0), Size::new(2, 9)), strings(&["ab", "gh", "", "ij"]));
    assert_eq!(clip_content(content.clone(), Position::new(9, 3), Size::new(2, 2)), strings(&[""]));
    assert_eq!(clip_content(content, Position::new(0, 7), Size::new(2, 2)), Vec::<String>::new());
}

#[test]
fn pane_constructors() {
    let pane = Pane::new(Position::new(1, 2), Size::new(3, 4), strings(&["x"]));
    assert_eq!(pane.content, Some(strings(&["x"])));
    assert_eq!((pane.focus, pane.style.clone(), pane.children.is_none()), (None, None, true));
    assert_eq!(Pane::new_width(7).size, Size::new(7, 1));
    assert_eq!(Pane::new_width(65536 + 5).size, Size::new(5, 1));
    let styled = Pane::new_styled(Position::new(0, 0), Size::new(1, 1), vec![], "input");
    assert_eq!(styled.style, Some("input".to_string()));
    let childless = Pane::new_children(Position::new(0, 0), Size::new(1, 1), vec![], vec![]);
    assert!(childless.children.is_none());
    let parent = Pane::new_children(Position::new(0, 0), Size::new(1, 1), vec![], vec![Pane::new_width(1)]);
    assert_eq!(parent.children.map(|c| c.len()), Some(1));
    let moved = Pane::new_width(1).offset(Position::new(2, 3));
    assert_eq!(moved.position, Position::new(2, 3));
    assert!(moved.check_intersect(Position::new(0, 0), Size::new(2, 3)));
    assert!(!moved.check_intersect(Position::new(0, 0), Size::new(1, 3)));
}

#[test]
fn pane_push_child_grows() {
    let mut pane = Pane::new_width(2);
    pane.push_child(Pane::new(Position::new(1, 1), Size::new(4, 2), vec![]));
    assert_eq!(pane.size, Size::new(5, 3));
    pane.push_child(Pane::new(Position::new(0, 0), Size::new(1, 1), vec![]));
    assert_eq!(pane.size, Size::new(5, 3));
    assert_eq!(pane.children.as_ref().map(|c| c.len()), Some(2));
    pane.set_style("box");
    assert_eq!(pane.style, Some("box".to_string()));
}

#[test]
fn pane_clip_recurses() {
    let child = Pane::new(Position::new(2, 1), Size::new(4, 2), strings(&["wxyz", "1234"]));
    let outside = Pane::new(Position::new(9, 9), Size::new(1, 1), strings(&["?"]));
    let mut pane = Pane::new(Position::new(1, 1), Size::new(8, 4), strings(&["abcdefgh", "ijklmnop"]));
    pane.push_child(child);
    pane.push_child(outside);
    let clipped = pane.clip(Position::new(3, 2), Size::new(3, 2)).unwrap();
    assert_eq!(clipped.position, Position::new(3, 2));
    assert_eq!(clipped.size, Size::new(3, 2));
    assert_eq!(clipped.content, Some(strings(&["klm"])));
    let children = clipped.children.unwrap();
    assert_eq!(children.len(), 1);
    assert_eq!(children[0].position, Position::new(0, 0));
    assert_eq!(children[0].size, Size::new(3, 2));
    assert_eq!(children[0].content, Some(strings(&["wxy", "123"])));
    assert!(Pane::new_width(3).clip(Position::new(5, 5), Size::new(1, 1)).is_none());
}

#[test]
fn text_widget_wraps_and_keeps_the_tail() {
    let mut text = Text::new(strings(&["abcdef"]));
    text.push("gh\nij".to_string());
    assert_eq!(text.lines, strings(&["abcdef", "gh", "ij"]));
    assert_eq!(text.rows(Size::new(4, 9)), strings(&["abcd", "ef", "gh", "ij"]));
    assert_eq!(text.rows(Size::new(4, 2)), strings(&["gh", "ij"]));
    assert_eq!(text.rows(Size::new(0, 2)), Vec::<String>::new());
    assert_eq!(text.render_content(Size::new(4, 1)), Some(strings(&["ij"])));
    assert_eq!(text.render_style(), None);
    text.set("one\ntwo");
    assert_eq!(text.lines, strings(&["one", "two"]));
    let styled = Text::new_styled(vec![], "log");
    assert_eq!(styled.render_style(), Some("log".to_string()));
    assert_eq!(styled.style_name(), Some("log".to_string()));
    let pane = text.render(Position::new(1, 1), Size::new(3, 3));
    assert_eq!(pane.content, Some(strings(&["one", "two"])));
    assert_eq!(text.render_bounds(), BoundSize { width: Bound::AtLeast(1), height: Bound::AtLeast(1) });
}

#[test]
fn text_input_takes_keys() {
    let mut input = TextInput::new("ac");
    input.keypress(Key::Right);
    input.keypress(Key::Char('b'));
    assert_eq!(input.content(), strings(&["abc"]));
    assert_eq!(input.focus(), Position::new(2, 0));
    input.keypress(Key::Right);
    input.keypress(Key::Right);
    assert_eq!(input.render_focus(Size::new(1, 1)), Some(Position::new(3, 0)));
    input.keypress(Key::Left);
    input.keypress(Key::Esc);
    assert_eq!(input.focus(), Position::new(2, 0));
    assert_eq!(input.bounds().split(), (Bound::AtLeast(1), Bound::Fixed(1)));
    assert_eq!(input.submit(), "abc");
    assert_eq!(input.content(), strings(&[""]));
    assert_eq!(input.focus(), Position::new(0, 0));
    input.keypress(Key::Left);
    assert_eq!(input.focus(), Position::new(0, 0));
}

#[test]
fn bounds_are_added_up() {
    let bounds = [Bound::Fixed(2), Bound::AtLeast(1), Bound::AtLeast(3)];
    assert_eq!(coalesce_bounds(&bounds), (6, 2));
    assert_eq!(coalesce_bounds(&[]), (0, 0));
    assert!(fits(&bounds, 6));
    assert!(!fits(&bounds, 5));
    assert!(!fits(&[Bound::Fixed(65535), Bound::Fixed(1)], 65535));
}

#[test]
fn proportional_layout_rounds_up() {
    let bounds = [Bound::Fixed(2), Bound::AtLeast(1), Bound::AtLeast(1), Bound::AtLeast(0)];
    assert_eq!(layout_bounds_proportional(&bounds, 11), vec![2, 4, 4, 1]);
    assert_eq!(layout_bounds_proportional(&bounds, 13), vec![2, 4, 4, 3]);
    assert_eq!(layout_bounds_proportional(&bounds, 4), vec![2, 1, 1, 0]);
    assert_eq!(layout_bounds_proportional(&[Bound::Fixed(3)], 9), vec![3]);
    assert_eq!(layout_bounds_proportional(&[], 9), Vec::<u16>::new());
    for goal in [5u16, 6, 7, 8, 100] {
        let sizes = layout_bounds_proportional(&bounds, goal);
        assert_eq!(sizes.iter().sum::<u16>(), goal);
    }
}

#[test]
fn pane_layout_places_children() {
    let mut column: Linear<TextInput> = Linear::vbox();
    column.push(TextInput::new("a"));
    column.push(TextInput::new("b"));
    let panes = column.panes(Size::new(5, 4)).unwrap();
    assert_eq!(panes.len(), 2);
    assert_eq!((panes[0].position, panes[0].size), (Position::new(0, 0), Size::new(5, 1)));
    assert_eq!((panes[1].position, panes[1].size), (Position::new(0, 1), Size::new(5, 1)));
    assert!(column.panes(Size::new(5, 1)).is_none());
    assert_eq!(column.render_bounds(), BoundSize { width: Bound::AtLeast(2), height: Bound::AtLeast(2) });
    column.flip();
    assert_eq!(column.direction, Direction::Horizontal);
    let panes = column.render_children(Size::new(6, 2)).unwrap();
    assert_eq!((panes[0].position, panes[0].size), (Position::new(0, 0), Size::new(3, 2)));
    assert_eq!((panes[1].position, panes[1].size), (Position::new(3, 0), Size::new(3, 2)));
    let row: Linear<TextInput> = Linear::new(vec![], Direction::Horizontal);
    assert_eq!(row.panes(Size::new(1, 1)).map(|p| p.len()), Some(0));
    assert_eq!(Linear::<TextInput>::hbox().direction, Direction::Horizontal);
}

#[test]
fn vbox_counts_from_one() {
    let mut vbox: VBox<TextInput> = VBox::new();
    assert_eq!(vbox.panes(Size::new(5, 4)).map(|p| p.len()), Some(0));
    vbox.contents.push(TextInput::new("a"));
    vbox.contents.push(TextInput::new("b"));
    let panes = vbox.render_children(Size::new(5, 4)).unwrap();
    assert_eq!((panes[0].position, panes[0].size), (Position::new(1, 1), Size::new(5, 1)));
    assert_eq!((panes[1].position, panes[1].size), (Position::new(1, 2), Size::new(5, 1)));
    assert_eq!(panes[1].content, Some(strings(&["b"])));
    assert!(vbox.panes(Size::new(5, 1)).is_none());
    assert_eq!(vbox.render_bounds(), BoundSize { width: Bound::AtLeast(2), height: Bound::AtLeast(2) });
}

#[test]
fn place_puts_items_one_behind_the_other() {
    let origin = Position::new(1, 1);
    let size = Size::new(7, 9);
    assert_eq!(
        place(origin, Direction::Vertical, size, &[2, 0, 3]),
        vec![
            (Position::new(1, 1), Size::new(7, 2)),
            (Position::new(1, 3), Size::new(7, 0)),
            (Position::new(1, 3), Size::new(7, 3)),
        ]
    );
    assert_eq!(
        place(Position::new(0, 0), Direction::Horizontal, size, &[4, 3]),
        vec![(Position::new(0, 0), Size::new(4, 9)), (Position::new(4, 0), Size::new(3, 9))]
    );
    assert_eq!(place(origin, Direction::Vertical, size, &[]), vec![]);
}

#[test]
fn place_stops_at_the_last_cell() {
    let places = place(Position::new(0, 0), Direction::Vertical, Size::new(1, 1), &[0xfff0, 0x20, 5]);
    assert_eq!(places[1].0, Position::new(0, 0xfff0));
    assert_eq!(places[2].0, Position::new(0, 0xffff));
    assert_eq!(places[2].1, Size::new(1, 5));
}

#[test]
fn join_bounds_adds_up_what_is_asked() {
    let widths = [Bound::Fixed(2), Bound::AtLeast(3)];
    let heights = [Bound::AtLeast(0xffff), Bound::Fixed(1)];
    assert_eq!(
        join_bounds(&widths, &heights),
        BoundSize { width: Bound::AtLeast(5), height: Bound::AtLeast(0xffff) }
    );
    assert_eq!(
        join_bounds(&[], &[]),
        BoundSize { width: Bound::AtLeast(0), height: Bound::AtLeast(0) }
    );
}

#[test]
fn compose_image_fails_only_for_want_of_rows() {
    let ui = Element::vbox(vec![Element::line("a"), Element::line("b")]);
    assert_eq!(
        compose_image::<u8, u8>(ui, text_ui::Size::new(2, 1)).err(),
        Some(LayoutError::OutOfSpace)
    );
    let ui = Element::vbox(vec![
        Element::text(strings(&["x"])),
        Element::line("a"),
        Element::vbox(vec![Element::line("b")]),
    ]);
    let block: Block = compose_image(ui, text_ui::Size::new(2, 4)).unwrap();
    assert_eq!(rows(&block), strings(&["x ", "a ", "b "]));
}
