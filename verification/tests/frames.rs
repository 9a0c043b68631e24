use std::cell::RefCell;
use std::rc::Rc;

use text_ui::backend::compose_rows;
use text_ui::executor::{route, Event, Executor, Flow, RenderBackend, Target};
use text_ui::input::{InputEvent, Key, MouseButton, MouseEvent, UIEvent};
use text_ui::ir::{ContentID, Segment, TextBlock, TextLine};
use text_ui::widget::list::{cut_length, head_length, tail_length, List, WidgetEnumerable};
use text_ui::widget::log::copy_lines;
use text_ui::widget::{Log, LayoutError, RenderContext, ShouldPropagate, Widget};
use text_ui::{
    App, AppEvent, Color, Direction, Frame, FullGrowthPolicy, GrowthPolicy, Name, Pos, RenderBound,
    Size,
};

type KeyHandler = Box<dyn Fn(Key) -> ShouldPropagate>;
type MouseHandler = Box<dyn Fn(Pos, MouseEvent) -> ShouldPropagate>;
type Block = TextBlock<KeyHandler, MouseHandler>;

fn id() -> ContentID {
    ContentID::new(None, "Test", "Text")
}

fn rows(block: &Block) -> Vec<String> {
    block
        .lines()
        .iter()
        .map(|l| l.segments.iter().map(|s| s.text.as_str()).collect())
        .collect()
}

fn block_of(lines: &[&str], width: usize) -> Block {
    let lines = lines.iter().map(|l| l.to_string()).collect();
    Block::clip_lines(None, "Test", "Text", lines, RenderBound::new(Some(width), None))
}

/// A backend that keeps what it is told.
#[derive(Default)]
struct Recorder {
    size: Option<Size>,
    painted: Vec<(Size, Vec<String>, Option<Pos>)>,
}

impl RenderBackend for Recorder {
    fn paint_frame(&mut self, frame: Frame) {
        let rows = compose_rows(&frame, &|fg: Color, bg: Color| format!("<{:?},{:?}>", fg, bg));
        self.painted.push((frame.size, rows, frame.focus));
    }

    fn size(&self) -> Size {
        self.size.unwrap_or(Size::new(4, 2))
    }

    fn resize(&mut self, size: Size) {
        self.size = Some(size);
    }
}

/// An application of one input row under a title, which counts what it is
/// told.
struct Form {
    stop_on: Option<Key>,
    resized: Vec<Size>,
    keys: Rc<RefCell<Vec<Key>>>,
    clicks: Rc<RefCell<Vec<Pos>>>,
}

impl Form {
    fn new() -> Self {
        Form { stop_on: None, resized: vec![], keys: Default::default(), clicks: Default::default() }
    }
}

impl Widget<KeyHandler, MouseHandler> for Form {
    fn render(&self, ctx: RenderContext) -> Result<Block, LayoutError> {
        let (keys, clicks) = (self.keys.clone(), self.clicks.clone());
        let title: Block = ctx.with_bound(ctx.bound().constrain_height(1)).clip_lines("Title", vec!["form".to_string()]);
        let height = ctx.bound().height.map(|h| h.saturating_sub(1));
        let field: Block = ctx
            .with_bound(RenderBound::new(ctx.bound().width, height))
            .clip_lines::<KeyHandler, MouseHandler>("Field", vec!["in".to_string()])
            .add_key_handler(
                Some(1),
                Box::new(move |key| {
                    keys.borrow_mut().push(key);
                    ShouldPropagate::Stop
                }),
            )
            .add_mouse_handler(
                Some(1),
                Box::new(move |pos, _| {
                    clicks.borrow_mut().push(pos);
                    ShouldPropagate::Stop
                }),
            );
        let field = if field.size().rows > 0 { field.add_cursor(1, Pos::new(2, 0)) } else { field };
        Ok(title.vconcat(field))
    }

    fn name(&self) -> Option<Name> {
        None
    }

    fn widget_type(&self) -> &'static str {
        "Form"
    }

    fn growth_policy(&self) -> FullGrowthPolicy {
        FullGrowthPolicy::default()
    }
}

impl App<KeyHandler, MouseHandler> for Form {
    fn handle_input(&mut self, event: &InputEvent) -> ShouldPropagate {
        match (event, self.stop_on) {
            (InputEvent::Key(key), Some(stop)) if *key == stop => ShouldPropagate::Stop,
            _ => ShouldPropagate::Continue,
        }
    }

    fn handle_resize(&mut self, size: Size) {
        self.resized.push(size);
    }

    fn style(&self, id: ContentID) -> (Option<Color>, Option<Color>) {
        if id.class == "Title" {
            (Some(Color::Blue), None)
        } else {
            (None, None)
        }
    }
}

/// A widget of a fixed number of rows that shows its name in each.
struct Rows(Name, usize);

impl Widget<KeyHandler, MouseHandler> for Rows {
    fn render(&self, ctx: RenderContext) -> Result<Block, LayoutError> {
        let lines = (0..self.1).map(|r| format!("{}{}", self.0, r)).collect();
        let block: Block = ctx.clip_lines("Row", lines);
        let name = self.0;
        let block = if self.1 > 0 { block.add_cursor(name, Pos::new(0, self.1 - 1)) } else { block };
        Ok(block.add_mouse_handler(Some(name), Box::new(|_, _| ShouldPropagate::Stop)))
    }

    fn name(&self) -> Option<Name> {
        Some(self.0)
    }

    fn widget_type(&self) -> &'static str {
        "Rows"
    }

    fn growth_policy(&self) -> FullGrowthPolicy {
        FullGrowthPolicy { width: GrowthPolicy::Greedy, height: GrowthPolicy::FixedSize }
    }
}

#[test]
fn route_follows_the_verdict() {
    let key = InputEvent::Key(Key::Char('a'));
    let mouse = InputEvent::Mouse(MouseEvent::Release(1, 1));
    let junk = InputEvent::Unsupported(vec![1, 2]);
    assert_eq!(route(ShouldPropagate::Continue, &key), (Flow::Next, Target::Focused(Key::Char('a'))));
    assert_eq!(route(ShouldPropagate::Continue, &mouse), (Flow::Next, Target::Cell(MouseEvent::Release(1, 1))));
    assert_eq!(route(ShouldPropagate::Continue, &junk), (Flow::Next, Target::Nobody));
    assert_eq!(route(ShouldPropagate::Stop, &key), (Flow::Redraw, Target::Nobody));
    assert_eq!(route(ShouldPropagate::Stop, &mouse), (Flow::Redraw, Target::Nobody));
}

#[test]
fn executor_renders_and_paints() {
    let mut executor = Executor::new(Recorder::default(), 1);
    assert_eq!((executor.size(), executor.focus()), (Size::new(4, 2), 1));
    let app = Form::new();
    let ui = executor.render(&app).unwrap();
    assert_eq!(rows(&ui), vec!["form", "in  "]);
    let painted = &executor.backend().painted;
    assert_eq!(painted.len(), 1);
    assert_eq!(painted[0].0, Size::new(4, 2));
    assert_eq!(painted[0].1, vec!["<Blue,Reset>form", "<Reset,Reset>in<Reset,Reset>  "]);
    assert_eq!(painted[0].2, Some(Pos::new(2, 1)));
}

#[test]
fn executor_rejects_a_frame_of_the_wrong_size() {
    let mut executor = Executor::new(Recorder { size: Some(Size::new(4, 0)), painted: vec![] }, 1);
    let app = Form::new();
    assert_eq!(executor.render(&app).err(), Some(LayoutError::BadHeight { expected: 0, found: 1 }));
    assert!(executor.backend().painted.is_empty());
}

#[test]
fn executor_takes_events() {
    let mut executor = Executor::new(Recorder::default(), 1);
    let mut app = Form::new();
    let ui = executor.render(&app).unwrap();
    let invoke_key = |cb: &KeyHandler, key: Key| cb(key);
    let invoke_mouse = |cb: &MouseHandler, pos: Pos, mouse: MouseEvent| cb(pos, mouse);
    let flow = executor.handle_event(&mut app, &ui, Event::Input(InputEvent::Key(Key::Char('x'))), &invoke_key, &invoke_mouse);
    assert_eq!(flow, Flow::Next);
    assert_eq!(*app.keys.borrow(), vec![Key::Char('x')]);
    let click = MouseEvent::Press(MouseButton::Left, 3, 2);
    executor.handle_event(&mut app, &ui, Event::Input(InputEvent::Mouse(click)), &invoke_key, &invoke_mouse);
    assert_eq!(*app.clicks.borrow(), vec![Pos::new(2, 0)]);
    let title = MouseEvent::Press(MouseButton::Left, 3, 1);
    executor.handle_event(&mut app, &ui, Event::Input(InputEvent::Mouse(title)), &invoke_key, &invoke_mouse);
    assert_eq!(app.clicks.borrow().len(), 1);
    let flow = executor.handle_event(&mut app, &ui, Event::App(AppEvent::SetFocus(9)), &invoke_key, &invoke_mouse);
    assert_eq!((flow, executor.focus()), (Flow::Next, 9));
    executor.handle_event(&mut app, &ui, Event::Input(InputEvent::Key(Key::Char('y'))), &invoke_key, &invoke_mouse);
    assert_eq!(app.keys.borrow().len(), 1);
    let flow = executor.handle_event(&mut app, &ui, Event::Resize(Size::new(9, 3)), &invoke_key, &invoke_mouse);
    assert_eq!((flow, executor.size()), (Flow::Next, Size::new(9, 3)));
    assert_eq!(app.resized, vec![Size::new(9, 3)]);
    assert_eq!(executor.backend().size(), Size::new(9, 3));
    app.stop_on = Some(Key::Esc);
    let flow = executor.handle_event(&mut app, &ui, Event::Input(InputEvent::Key(Key::Esc)), &invoke_key, &invoke_mouse);
    assert_eq!(flow, Flow::Redraw);
    let flow = executor.handle_event(&mut app, &ui, Event::App(AppEvent::Exit), &invoke_key, &invoke_mouse);
    assert_eq!(flow, Flow::Exit);
}

#[test]
fn executor_drains_in_order() {
    let mut executor = Executor::new(Recorder::default(), 1);
    let mut app = Form::new();
    app.stop_on = Some(Key::Esc);
    let ui = executor.render(&app).unwrap();
    let invoke_key = |cb: &KeyHandler, key: Key| cb(key);
    let invoke_mouse = |cb: &MouseHandler, pos: Pos, mouse: MouseEvent| cb(pos, mouse);
    let key = |ch| Event::Input(InputEvent::Key(Key::Char(ch)));
    let all = vec![key('a'), key('b'), Event::Resize(Size::new(5, 5))];
    assert_eq!(executor.drain(&mut app, &ui, all, &invoke_key, &invoke_mouse), (Flow::Next, 3));
    assert_eq!(*app.keys.borrow(), vec![Key::Char('a'), Key::Char('b')]);
    let stopped = vec![key('c'), Event::Input(InputEvent::Key(Key::Esc)), key('d')];
    assert_eq!(executor.drain(&mut app, &ui, stopped, &invoke_key, &invoke_mouse), (Flow::Redraw, 2));
    assert_eq!(app.keys.borrow().len(), 3);
    let exit = vec![Event::App(AppEvent::Exit), key('e')];
    assert_eq!(executor.drain(&mut app, &ui, exit, &invoke_key, &invoke_mouse), (Flow::Exit, 1));
    assert_eq!(executor.drain(&mut app, &ui, vec![], &invoke_key, &invoke_mouse), (Flow::Next, 0));
    assert_eq!(UIEvent::Exit, UIEvent::Exit);
}

#[test]
fn trim_top_moves_what_is_left() {
    let seen: Rc<RefCell<Vec<Pos>>> = Default::default();
    let log = seen.clone();
    let handler: MouseHandler = Box::new(move |pos, _| {
        log.borrow_mut().push(pos);
        ShouldPropagate::Stop
    });
    let block = block_of(&["a", "b", "c", "d"], 1)
        .add_cursor(1, Pos::new(0, 0))
        .add_cursor(2, Pos::new(1, 3))
        .add_mouse_handler(None, handler);
    let trimmed = block.trim_top(2);
    assert_eq!(trimmed.size(), Size::new(1, 2));
    assert_eq!(rows(&trimmed), vec!["c", "d"]);
    assert_eq!(trimmed.get_cursor(1), None);
    assert_eq!(trimmed.get_cursor(2), Some(Pos::new(1, 1)));
    let invoke = |cb: &MouseHandler, pos: Pos, ev: MouseEvent| cb(pos, ev);
    assert_eq!(trimmed.handle_mouse(MouseEvent::Release(1, 1), invoke), 1);
    assert_eq!(*seen.borrow(), vec![Pos::new(0, 2)]);
    let below = block_of(&["x"], 1).vconcat(trimmed);
    assert_eq!(below.handle_mouse(MouseEvent::Release(1, 3), invoke), 1);
    assert_eq!(seen.borrow()[1], Pos::new(0, 3));
    assert_eq!(block_of(&["a"], 1).trim_top(1).size(), Size::new(1, 0));
    assert_eq!(rows(&block_of(&["a"], 1).trim_top(0)), vec!["a"]);
}

#[test]
fn trim_bottom_drops_what_is_below() {
    let block = block_of(&["a", "b", "c"], 1).add_cursor(1, Pos::new(0, 0)).add_cursor(2, Pos::new(0, 2));
    let below = block_of(&["d"], 1).add_mouse_handler(None, Box::new(|_, _| ShouldPropagate::Stop));
    let trimmed = block.vconcat(below).trim_bottom(3);
    assert_eq!(trimmed.size(), Size::new(1, 1));
    assert_eq!(rows(&trimmed), vec!["a"]);
    assert_eq!(trimmed.get_cursor(1), Some(Pos::new(0, 0)));
    assert_eq!(trimmed.get_cursor(2), None);
    assert_eq!(trimmed.mouse_handler_count(), 1);
    let invoke = |cb: &MouseHandler, pos: Pos, ev: MouseEvent| cb(pos, ev);
    assert_eq!(trimmed.handle_mouse(MouseEvent::Release(1, 1), invoke), 0);
}

#[test]
fn new_clipped_brings_lines_to_width() {
    let lines = vec![
        TextLine::from(Segment::new_id(id(), "abcdef".to_string())),
        TextLine::from(Segment::new_id(id(), "g".to_string())),
    ];
    let block = Block::new_clipped(lines, 3, 2);
    assert_eq!(rows(&block), vec!["abc", "g  "]);
    assert_eq!((block.key_handler_count(), block.mouse_handler_count()), (0, 0));
}

#[test]
fn list_lengths() {
    assert_eq!(tail_length(10, 3, 2), 5);
    assert_eq!(tail_length(10, 3, -2), 9);
    assert_eq!(tail_length(4, 3, 2), 0);
    assert_eq!(tail_length(usize::MAX, 0, i32::MIN), usize::MAX);
    assert_eq!(head_length(3), 3);
    assert_eq!(head_length(-3), 0);
    assert_eq!(cut_length(5, -2), 2);
    assert_eq!(cut_length(1, -2), 1);
    assert_eq!(cut_length(5, 2), 0);
    assert_eq!(cut_length(usize::MAX, i32::MIN), 1 << 31);
}

#[test]
fn list_shows_a_window() {
    let items = vec![Rows(1, 2), Rows(2, 3), Rows(3, 2), Rows(4, 4)];
    let ctx = RenderContext::new(RenderBound::new(Some(2), Some(5)), None, "Test");
    let list = List::new(Some(9), items, 1, 1);
    let block: Block = list.block(ctx).unwrap();
    assert_eq!(rows(&block), vec!["11", "20", "21", "22", "30"]);
    assert_eq!(block.get_cursor(1), Some(Pos::new(0, 0)));
    assert_eq!(block.get_cursor(2), Some(Pos::new(0, 3)));
    assert_eq!(block.get_cursor(3), None);
    assert_eq!(list.name(), Some(9));
    assert_eq!(Widget::<KeyHandler, MouseHandler>::widget_type(&list), "List");
}

#[test]
fn list_scrolls_the_anchor_out() {
    let items = vec![Rows(1, 3), Rows(2, 1)];
    let ctx = RenderContext::new(RenderBound::new(Some(2), Some(3)), None, "Test");
    let block: Block = List::new(None, items, 0, -2).block(ctx).unwrap();
    assert_eq!(rows(&block), vec!["12", "20"]);
    let items = vec![Rows(1, 3)];
    let block: Block = List::new(None, items, 0, 1).block(ctx).unwrap();
    assert_eq!(rows(&block), vec!["10", "11", "12"]);
}

#[test]
fn list_errors() {
    let items = vec![Rows(1, 1)];
    let free = RenderContext::new(RenderBound::new(Some(2), None), None, "Test");
    let list = List::new(None, items, 3, 0);
    assert_eq!(list.block::<KeyHandler, MouseHandler>(free).err(), Some(LayoutError::Unconstrained(Direction::Vertical)));
    let ctx = RenderContext::new(RenderBound::new(Some(2), Some(3)), None, "Test");
    assert_eq!(list.block::<KeyHandler, MouseHandler>(ctx).err(), Some(LayoutError::NoSuchWidget(3)));
    let slice: &[Rows] = &[Rows(1, 1)];
    assert!(WidgetEnumerable::<KeyHandler, MouseHandler>::get_widget(&slice, 0).is_some());
    assert!(WidgetEnumerable::<KeyHandler, MouseHandler>::get_widget(&slice, 1).is_none());
}

#[test]
fn log_wraps_its_messages() {
    let mut log = Log::new(Some(4));
    log.log_msg("hello");
    log.log_msg("hi");
    assert_eq!(copy_lines(&log.lines), vec!["hello", "hi"]);
    let ctx = RenderContext::new(RenderBound::new(Some(3), Some(4)), Some(4), "Log");
    let block: Block = log.block(ctx).unwrap();
    assert_eq!(rows(&block), vec!["hel", "lo ", "hi ", "   "]);
    assert_eq!(block.lines()[0].segments[0].id.as_tuple(), (Some(4), "Log", "Content"));
    let log = Log::default();
    assert_eq!((log.name, log.selected, log.scroll_pos, log.lines.len()), (None, None, 0, 0));
}

#[test]
fn render_context_lines_and_text() {
    let ctx = RenderContext::new(RenderBound::new(Some(3), Some(5)), Some(2), "Note");
    let line: Block = ctx.line("Title", "abcdef".to_string());
    assert_eq!((line.size(), rows(&line)), (Size::new(3, 1), vec!["abc".to_string()]));
    let text: Block = ctx.with_bound(RenderBound::new(Some(3), None)).text("Body", "abcdef".to_string());
    assert_eq!(rows(&text), vec!["abc", "def"]);
    assert_eq!(ctx.bound(), RenderBound::new(Some(3), Some(5)));
    let wrapped: Block = ctx.wrap_lines("Body", vec!["abcd".to_string()]);
    assert_eq!(wrapped.size(), Size::new(3, 5));
    let rule = text_ui::Line::horizontal();
    let rendered: Block = ctx.render(&rule).unwrap();
    assert_eq!(rendered.size(), Size::new(3, 1));
}

#[test]
fn drain_leaves_focus_and_size_as_the_taken_events_say() {
    let mut executor = Executor::new(Recorder::default(), 1);
    let mut app = Form::new();
    let ui = executor.render(&app).unwrap();
    let invoke_key = |cb: &KeyHandler, key: Key| cb(key);
    let invoke_mouse = |cb: &MouseHandler, pos: Pos, mouse: MouseEvent| cb(pos, mouse);
    let events = vec![
        Event::App(AppEvent::SetFocus(5)),
        Event::Resize(Size::new(7, 2)),
        Event::App(AppEvent::SetFocus(6)),
        Event::App(AppEvent::Exit),
        Event::App(AppEvent::SetFocus(9)),
        Event::Resize(Size::new(1, 1)),
    ];
    let taken = executor.drain(&mut app, &ui, events, &invoke_key, &invoke_mouse);
    assert_eq!(taken, (Flow::Exit, 4));
    assert_eq!(executor.focus(), 6);
    assert_eq!(executor.size(), Size::new(7, 2));
}

#[test]
fn a_stopped_input_reaches_no_handler() {
    let mut executor = Executor::new(Recorder::default(), 1);
    let mut app = Form::new();
    app.stop_on = Some(Key::Char('q'));
    let ui = executor.render(&app).unwrap();
    let invoke_key = |cb: &KeyHandler, key: Key| cb(key);
    let invoke_mouse = |cb: &MouseHandler, pos: Pos, mouse: MouseEvent| cb(pos, mouse);
    let key = |ch| Event::Input(InputEvent::Key(Key::Char(ch)));
    let events = vec![key('a'), key('q'), key('b')];
    let taken = executor.drain(&mut app, &ui, events, &invoke_key, &invoke_mouse);
    assert_eq!(taken, (Flow::Redraw, 2));
    assert_eq!(*app.keys.borrow(), vec![Key::Char('a')]);
}
