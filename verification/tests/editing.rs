use text_ui::chars::{chars_of, split_lines, split_newlines, string_of};
use text_ui::input::Key;
use text_ui::widget::readline::config::Config;
use text_ui::widget::readline::consts::{char_to_key_press, to_upper, KeyPress};
use text_ui::widget::readline::history::{Direction, History};
use text_ui::widget::readline::keymap::{Anchor, Cmd, InputState, Movement};
use text_ui::widget::readline::kill_ring::{KillRing, Mode};
use text_ui::widget::readline::line_buffer::{At, CharSearch, LineBuffer, Word, WordAction};
use text_ui::widget::readline::process::process_command;
use text_ui::widget::readline::state::{init_state, State};
use text_ui::widget::readline::{key_to_keypress, Editor, Offset, Readline, ReadlineEvent};
use text_ui::widget::simple_input::{SimpleInput, SimpleInputEvent, SimpleInputInner};
use text_ui::widget::{LayoutError, RenderContext, ShouldPropagate};
use text_ui::{Pos, RenderBound, Size, TextBlock};

type Block = TextBlock<u8, u8>;

fn line(text: &str, pos: usize) -> LineBuffer {
    LineBuffer::init(text, pos)
}

fn row_texts(block: &Block) -> Vec<String> {
    block
        .lines()
        .iter()
        .map(|l| l.segments.iter().map(|s| s.text.as_str()).collect())
        .collect()
}

#[test]
fn chars_round_trip() {
    let chars = chars_of("ab\u{e9}c");
    assert_eq!(chars, vec!['a', 'b', '\u{e9}', 'c']);
    assert_eq!(string_of(&chars, 0, 4), "ab\u{e9}c");
    assert_eq!(string_of(&chars, 1, 3), "b\u{e9}");
    assert_eq!(string_of(&chars, 2, 2), "");
}

#[test]
fn split_lines_follows_line_endings() {
    assert_eq!(split_lines("a\nb\r\nc"), vec!["a", "b", "c"]);
    assert_eq!(split_lines("a\n"), vec!["a"]);
    assert_eq!(split_lines("a\n\nb"), vec!["a", "", "b"]);
    assert_eq!(split_lines(""), Vec::<String>::new());
    assert_eq!(split_lines("a\rb"), vec!["a\rb"]);
    for text in ["x\ny", "one\r\ntwo\n", "\n", "no newline", "a\n\n"] {
        let expected: Vec<String> = text.lines().map(|l| l.to_owned()).collect();
        assert_eq!(split_lines(text), expected);
    }
}

#[test]
fn split_newlines_keeps_empty_pieces() {
    assert_eq!(split_newlines("a\nb"), vec!["a", "b"]);
    assert_eq!(split_newlines("a\n"), vec!["a", ""]);
    assert_eq!(split_newlines(""), vec![""]);
    for text in ["x\ny", "\n\n", "trailing\n", "a\r\nb"] {
        let expected: Vec<String> = text.split('\n').map(|l| l.to_owned()).collect();
        assert_eq!(split_newlines(text), expected);
    }
}

#[test]
fn line_buffer_insert_and_delete() {
    let mut buffer = line("held", 2);
    assert_eq!(buffer.insert('l', 1), Some(false));
    assert_eq!((buffer.as_str().as_str(), buffer.pos()), ("helld", 3));
    assert_eq!(buffer.delete(1), Some("l".to_string()));
    assert_eq!((buffer.as_str().as_str(), buffer.pos()), ("held", 3));
    assert_eq!(buffer.move_end(), true);
    assert_eq!(buffer.insert('!', 3), Some(true));
    assert_eq!(buffer.as_str(), "held!!!");
    assert_eq!(buffer.delete(1), None);
    assert_eq!(buffer.backspace(2), Some("!!".to_string()));
    assert_eq!((buffer.as_str().as_str(), buffer.pos()), ("held!", 5));
    assert_eq!(buffer.backspace(9), Some("held!".to_string()));
    assert_eq!(buffer.backspace(1), None);
    assert!(buffer.is_empty());
}

#[test]
fn line_buffer_respects_its_capacity() {
    let mut buffer = LineBuffer::with_capacity(3);
    assert_eq!(buffer.insert('a', 2), Some(true));
    assert_eq!(buffer.insert('b', 2), None);
    assert_eq!(buffer.as_str(), "aa");
    assert_eq!(buffer.yank("xy", 1), None);
    assert_eq!(buffer.yank("x", 1), Some(true));
    assert_eq!(buffer.yank("", 1), None);
    assert_eq!((buffer.as_str().as_str(), buffer.len()), ("aax", 3));
}

#[test]
fn line_buffer_moves() {
    let mut buffer = line("hello", 2);
    assert!(buffer.move_backward(1));
    assert_eq!(buffer.pos(), 1);
    assert!(buffer.move_backward(5));
    assert_eq!(buffer.pos(), 0);
    assert!(!buffer.move_backward(1));
    assert!(!buffer.move_home());
    assert!(buffer.move_forward(2));
    assert_eq!(buffer.pos(), 2);
    assert!(buffer.move_forward(9));
    assert_eq!(buffer.pos(), 5);
    assert!(!buffer.move_end());
    assert_eq!(buffer.next_pos(1), None);
    assert_eq!(line("hello", 3).next_pos(1), Some(4));
    assert_eq!(line("hello", 3).next_pos(9), Some(5));
}

#[test]
fn line_buffer_kills() {
    let mut buffer = line("hello world", 5);
    assert_eq!(buffer.kill_line(), Some(" world".to_string()));
    assert_eq!((buffer.as_str().as_str(), buffer.pos()), ("hello", 5));
    assert_eq!(buffer.kill_line(), None);
    assert_eq!(buffer.move_backward(3), true);
    assert_eq!(buffer.discard_line(), Some("he".to_string()));
    assert_eq!((buffer.as_str().as_str(), buffer.pos()), ("llo", 0));
    assert_eq!(buffer.discard_line(), None);
}

#[test]
fn line_buffer_transposes() {
    let mut buffer = line("abc", 1);
    assert!(buffer.transpose_chars());
    assert_eq!((buffer.as_str().as_str(), buffer.pos()), ("bac", 2));
    let mut at_end = line("abc", 3);
    assert!(at_end.transpose_chars());
    assert_eq!((at_end.as_str().as_str(), at_end.pos()), ("acb", 3));
    assert!(!line("abc", 0).transpose_chars());
    assert!(!line("a", 1).transpose_chars());
}

#[test]
fn line_buffer_words() {
    let mut buffer = line("one two  three", 14);
    assert!(buffer.move_to_prev_word(Word::Emacs, 1));
    assert_eq!(buffer.pos(), 9);
    assert!(buffer.move_to_prev_word(Word::Emacs, 2));
    assert_eq!(buffer.pos(), 0);
    assert!(!buffer.move_to_prev_word(Word::Emacs, 1));
    assert!(buffer.move_to_next_word(At::AfterEnd, Word::Emacs, 1));
    assert_eq!(buffer.pos(), 3);
    assert!(buffer.move_to_next_word(At::Start, Word::Emacs, 1));
    assert_eq!(buffer.pos(), 4);
    assert!(buffer.move_to_next_word(At::Start, Word::Emacs, 1));
    assert_eq!(buffer.pos(), 9);
    assert_eq!(buffer.delete_prev_word(Word::Emacs, 1), Some("two  ".to_string()));
    assert_eq!((buffer.as_str().as_str(), buffer.pos()), ("one three", 4));
    assert_eq!(buffer.delete_word(At::AfterEnd, Word::Emacs, 1), Some("three".to_string()));
    assert_eq!(buffer.delete_word(At::AfterEnd, Word::Emacs, 1), None);
    let mut big = line("a-b c_d", 7);
    assert!(big.move_to_prev_word(Word::Big, 1));
    assert_eq!(big.pos(), 4);
    let mut vi = line("a-b c_d", 7);
    assert!(vi.move_to_prev_word(Word::Vi, 1));
    assert_eq!(vi.pos(), 4);
    let mut emacs = line("a-b c_d", 7);
    assert!(emacs.move_to_prev_word(Word::Emacs, 1));
    assert_eq!(emacs.pos(), 6);
}

#[test]
fn line_buffer_yank_and_replace() {
    let mut buffer = line("ad", 1);
    assert_eq!(buffer.yank("bc", 2), Some(false));
    assert_eq!((buffer.as_str().as_str(), buffer.pos()), ("abcbcd", 5));
    assert_eq!(buffer.yank_pop(4, "-"), Some(false));
    assert_eq!((buffer.as_str().as_str(), buffer.pos()), ("a-d", 2));
    assert_eq!(buffer.yank_pop(3, "x"), None);
    buffer.replace(0, 2, "xyz");
    assert_eq!((buffer.as_str().as_str(), buffer.pos()), ("xyzd", 3));
    buffer.update("new", 9);
    assert_eq!((buffer.as_str().as_str(), buffer.pos()), ("new", 3));
    assert_eq!(buffer.before_cursor(), "new");
}

#[test]
fn history_add_rules() {
    let mut history = History::new();
    assert!(history.is_empty());
    assert!(history.add("one"));
    assert!(!history.add("one"));
    assert!(!history.add(""));
    assert!(history.add(" two"));
    assert!(history.add("one"));
    assert_eq!(history.len(), 3);
    assert_eq!(history.get(1).map(|s| s.as_str()), Some(" two"));
    assert_eq!(history.last().map(|s| s.as_str()), Some("one"));
    assert_eq!(history.get(3), None);
    history.clear();
    assert_eq!(history.len(), 0);
    assert_eq!(history.last(), None);
}

#[test]
fn history_with_config() {
    let config = Config { max_history_size: 2, history_ignore_dups: false, history_ignore_space: true };
    let mut history = History::with_config(config);
    assert!(history.add("a"));
    assert!(history.add("a"));
    assert!(!history.add(" b"));
    assert!(history.add("c"));
    assert_eq!(history.len(), 2);
    assert_eq!(history.get(0).map(|s| s.as_str()), Some("a"));
    assert_eq!(history.get(1).map(|s| s.as_str()), Some("c"));
    let none = Config { max_history_size: 0, ..Config::default() };
    assert!(!History::with_config(none).add("a"));
}

#[test]
fn history_prefix_search() {
    let mut history = History::new();
    for entry in ["git status", "ls", "git log", "cd"] {
        history.add(entry);
    }
    assert_eq!(history.starts_with("git", 3, Direction::Reverse), Some(2));
    assert_eq!(history.starts_with("git", 1, Direction::Reverse), Some(0));
    assert_eq!(history.starts_with("git", 1, Direction::Forward), Some(2));
    assert_eq!(history.starts_with("git", 3, Direction::Forward), None);
    assert_eq!(history.starts_with("x", 3, Direction::Reverse), None);
    assert_eq!(history.starts_with("", 3, Direction::Reverse), None);
    assert_eq!(history.starts_with("git", 4, Direction::Reverse), None);
}

#[test]
fn kill_ring_joins_consecutive_kills() {
    let mut ring = KillRing::new(2);
    assert_eq!(ring.yank(), None);
    ring.kill("world", Mode::Append);
    ring.kill("hello ", Mode::Prepend);
    ring.kill("!", Mode::Append);
    assert_eq!(ring.yank(), Some("hello world!".to_string()));
    ring.kill("second", Mode::Append);
    assert_eq!(ring.yank(), Some("second".to_string()));
    assert_eq!(ring.yank_pop(), Some((6, "hello world!".to_string())));
    assert_eq!(ring.yank_pop(), Some((12, "second".to_string())));
    ring.reset();
    assert_eq!(ring.yank_pop(), None);
    ring.kill("third", Mode::Append);
    assert_eq!(ring.yank(), Some("third".to_string()));
    assert_eq!(ring.yank_pop(), Some((5, "second".to_string())));
    let mut none = KillRing::new(0);
    none.kill("x", Mode::Append);
    assert_eq!(none.yank(), None);
}

#[test]
fn state_tracks_the_cursor() {
    let mut s = init_state("ab\ncdef", 5);
    assert_eq!(s.cursor, Offset::new(2, 1));
    assert_eq!(s.rows, 2);
    s.width = 3;
    s.refresh();
    assert_eq!(s.render_width(3), vec!["ab", "cde", "f"]);
    assert_eq!(s.rows, 3);
    assert_eq!(s.cursor, Offset::new(2, 1));
    s.edit_move_end();
    assert_eq!(s.cursor, Offset::new(0, 2));
    s.edit_move_home();
    assert_eq!(s.cursor, Offset::new(0, 0));
    assert_eq!(init_state("", 0).render_width(4), vec![""]);
    assert_eq!(init_state("a\n", 0).render_width(4), vec!["a", ""]);
    assert_eq!(init_state("abc", 0).render_width(0), vec![""]);
}

#[test]
fn state_edits() {
    let mut s = State::new(0);
    s.edit_insert('a', 3);
    assert_eq!((s.line.as_str().as_str(), s.cursor), ("aaa", Offset::new(3, 0)));
    s.edit_move_backward(2);
    s.edit_replace_char('b', 2);
    assert_eq!((s.line.as_str().as_str(), s.line.pos()), ("abb", 2));
    s.edit_overwrite_char('c');
    assert_eq!((s.line.as_str().as_str(), s.line.pos()), ("abc", 3));
    s.edit_overwrite_char('d');
    assert_eq!(s.line.as_str(), "abc");
    s.edit_transpose_chars();
    assert_eq!(s.line.as_str(), "acb");
    assert_eq!(s.edit_backspace(1), Some("b".to_string()));
    s.edit_move_home();
    assert_eq!(s.edit_delete(1), Some("a".to_string()));
    s.edit_yank(true, "xy", Anchor::Before, 1);
    assert_eq!((s.line.as_str().as_str(), s.line.pos()), ("xyc", 2));
    s.edit_yank(false, "--", Anchor::After, 1);
    assert_eq!((s.line.as_str().as_str(), s.line.pos()), ("xyc--", 4));
    s.edit_yank_pop(2, "!");
    assert_eq!((s.line.as_str().as_str(), s.line.pos()), ("xy!-", 3));
    s.edit_move_forward(9);
    assert_eq!(s.edit_discard_line(), Some("xy!-".to_string()));
    s.set_line("one two");
    s.edit_move_to_prev_word(Word::Emacs, 1);
    assert_eq!(s.edit_kill_line(), Some("two".to_string()));
    assert_eq!(s.edit_delete_prev_word(Word::Emacs, 1), Some("one ".to_string()));
    s.set_line("one two");
    s.edit_move_home();
    s.edit_move_to_next_word(At::AfterEnd, Word::Emacs, 1);
    assert_eq!(s.line.pos(), 3);
    assert_eq!(s.edit_delete_word(At::AfterEnd, Word::Emacs, 1), Some(" two".to_string()));
    assert_eq!(s.finalize(), "one");
    assert_eq!((s.line.as_str().as_str(), s.rows, s.cursor), ("", 1, Offset::new(0, 0)));
}

#[test]
fn state_history_jumps_and_search() {
    let mut history = History::new();
    for entry in ["git status", "ls", "git log"] {
        history.add(entry);
    }
    let mut s = init_state("git", 3);
    s.history_index = history.len();
    s.edit_history_search(&history, Direction::Reverse);
    assert_eq!((s.line.as_str().as_str(), s.history_index), ("git log", 2));
    s.edit_move_home();
    s.edit_move_forward(3);
    s.edit_history_search(&history, Direction::Reverse);
    assert_eq!((s.line.as_str().as_str(), s.history_index), ("git status", 0));
    s.edit_history_search(&history, Direction::Reverse);
    assert_eq!(s.history_index, 0);
    s.edit_history(&history, false);
    assert_eq!((s.line.as_str().as_str(), s.history_index), ("", 3));
    s.set_line("draft");
    s.edit_history(&history, true);
    assert_eq!((s.line.as_str().as_str(), s.history_index), ("git status", 0));
    assert_eq!(s.saved_line_for_history.as_str(), "draft");
    s.edit_history(&history, false);
    assert_eq!((s.line.as_str().as_str(), s.history_index), ("draft", 3));
    let empty = History::new();
    let mut idle = init_state("x", 0);
    idle.edit_history_next(&empty, true);
    idle.edit_history(&empty, true);
    idle.edit_history_search(&empty, Direction::Reverse);
    assert_eq!((idle.line.as_str().as_str(), idle.history_index), ("x", 0));
}

#[test]
fn keys_become_keypresses() {
    assert_eq!(key_to_keypress(Key::Ctrl('a')), KeyPress::Ctrl('A'));
    assert_eq!(key_to_keypress(Key::Alt('f')), KeyPress::Meta('F'));
    assert_eq!(key_to_keypress(Key::Char('x')), KeyPress::Char('x'));
    assert_eq!(key_to_keypress(Key::BackTab), KeyPress::UnknownEscSeq);
    assert_eq!(key_to_keypress(Key::F(3)), KeyPress::F(3));
    assert_eq!(to_upper('z'), 'Z');
    assert_eq!(to_upper('Z'), 'Z');
    assert_eq!(to_upper('1'), '1');
    assert_eq!(char_to_key_press('\x01'), KeyPress::Ctrl('A'));
    assert_eq!(char_to_key_press('\x1b'), KeyPress::Esc);
    assert_eq!(char_to_key_press('q'), KeyPress::Char('q'));
    assert_eq!(char_to_key_press('\n'), KeyPress::Enter);
}

#[test]
fn commands_use_the_kill_ring() {
    let mut s = init_state("hello world", 11);
    let mut editor = Editor::new();
    let keys = InputState::new();
    process_command(&mut s, &mut editor, Cmd::Kill(Movement::BackwardWord(1, Word::Emacs)), &keys);
    assert_eq!(s.line.as_str(), "hello ");
    process_command(&mut s, &mut editor, Cmd::Kill(Movement::BackwardWord(1, Word::Emacs)), &keys);
    assert_eq!(s.line.as_str(), "");
    process_command(&mut s, &mut editor, Cmd::Yank(1, Anchor::Before), &keys);
    assert_eq!(s.line.as_str(), "hello world");
    process_command(&mut s, &mut editor, Cmd::Move(Movement::BeginningOfLine), &keys);
    process_command(&mut s, &mut editor, Cmd::Kill(Movement::ForwardChar(1)), &keys);
    process_command(&mut s, &mut editor, Cmd::Kill(Movement::EndOfLine), &keys);
    assert_eq!(s.line.as_str(), "");
    process_command(&mut s, &mut editor, Cmd::Yank(2, Anchor::Before), &keys);
    assert_eq!(s.line.as_str(), "ello worldello world");
    process_command(&mut s, &mut editor, Cmd::YankPop, &keys);
    assert_eq!(s.line.as_str(), "ello worldhello world");
    process_command(&mut s, &mut editor, Cmd::Kill(Movement::WholeLine), &keys);
    assert_eq!(s.line.as_str(), "");
    process_command(&mut s, &mut editor, Cmd::Insert(2, "ab".to_string()), &keys);
    process_command(&mut s, &mut editor, Cmd::SelfInsert(1, 'c'), &keys);
    process_command(&mut s, &mut editor, Cmd::Move(Movement::BackwardChar(1)), &keys);
    process_command(&mut s, &mut editor, Cmd::Overwrite('d'), &keys);
    process_command(&mut s, &mut editor, Cmd::TransposeChars, &keys);
    process_command(&mut s, &mut editor, Cmd::Unknown, &keys);
    assert_eq!(s.line.as_str(), "abadb");
}

#[test]
fn commands_walk_the_history() {
    let mut s = init_state("draft", 5);
    let mut editor = Editor::new();
    assert!(editor.add_history_entry("first"));
    assert!(editor.add_history_entry("second"));
    s.history_index = editor.get_history_const().len();
    let keys = InputState::new();
    process_command(&mut s, &mut editor, Cmd::PreviousHistory, &keys);
    assert_eq!(s.line.as_str(), "second");
    process_command(&mut s, &mut editor, Cmd::BeginningOfHistory, &keys);
    assert_eq!(s.line.as_str(), "first");
    process_command(&mut s, &mut editor, Cmd::NextHistory, &keys);
    process_command(&mut s, &mut editor, Cmd::NextHistory, &keys);
    assert_eq!(s.line.as_str(), "draft");
    process_command(&mut s, &mut editor, Cmd::HistorySearchBackward, &keys);
    assert_eq!(s.line.as_str(), "draft");
    editor.clear_history();
    assert!(editor.get_history().is_empty());
}

#[test]
fn editor_bindings() {
    let mut editor = Editor::new();
    assert!(editor.binding(KeyPress::Tab).is_none());
    assert!(editor.bind_sequence(KeyPress::Tab, Cmd::Insert(1, "    ".to_string())).is_none());
    assert!(matches!(editor.bind_sequence(KeyPress::Tab, Cmd::Noop), Some(Cmd::Insert(1, _))));
    assert!(matches!(editor.binding(KeyPress::Tab), Some(Cmd::Noop)));
    assert!(matches!(editor.unbind_sequence(KeyPress::Tab), Some(Cmd::Noop)));
    assert!(editor.unbind_sequence(KeyPress::Tab).is_none());
    assert!(matches!(InputState::new().next_cmd(KeyPress::Ctrl('K')), Cmd::Kill(Movement::EndOfLine)));
    assert!(Cmd::Move(Movement::EndOfLine).should_reset_kill_ring());
    assert!(!Cmd::Kill(Movement::EndOfLine).should_reset_kill_ring());
    assert!(Cmd::Kill(Movement::ForwardChar(1)).should_reset_kill_ring());
}

#[test]
fn readline_takes_keys_and_submits() {
    let mut readline: Readline<u8> = Readline::new(7).add_listener(1).add_listener(2);
    let told = std::cell::RefCell::new(Vec::new());
    let notify = |listener: &u8, event: &ReadlineEvent| {
        let ReadlineEvent::Submitted { name, line } = event;
        told.borrow_mut().push((*listener, *name, line.to_string()));
        *listener == 2
    };
    for ch in "hi".chars() {
        assert_eq!(readline.state().handle_key(Key::Char(ch), &notify), ShouldPropagate::Stop);
    }
    assert_eq!(readline.state().handle_key(Key::Esc, &notify), ShouldPropagate::Continue);
    assert_eq!(readline.state().handle_key(Key::Left, &notify), ShouldPropagate::Stop);
    assert_eq!(readline.state().state.line.pos(), 1);
    assert_eq!(readline.state().handle_key(Key::Char('\n'), &notify), ShouldPropagate::Stop);
    assert_eq!(*told.borrow(), vec![(1, 7, "hi".to_string()), (2, 7, "hi".to_string())]);
    assert_eq!(readline.state().listeners, vec![2]);
    assert_eq!(readline.state().editor.history.len(), 1);
    assert_eq!(readline.state().state.line.as_str(), "");
    readline.process_key(Key::Up);
    assert_eq!(readline.state().state.line.as_str(), "");
    readline.state().state.history_index = 1;
    readline.process_key(Key::Up);
    assert_eq!(readline.state().state.line.as_str(), "hi");
    readline.set_line("abc");
    readline.process_char('\x01');
    readline.process_keypress(KeyPress::Delete);
    assert_eq!(readline.finalize(), "bc");
    readline.update("xyz", 1);
    readline.width(2);
    assert_eq!(readline.state().state.cursor, Offset::new(1, 0));
    assert_eq!(readline.state().state.rows, 2);
}

#[test]
fn readline_renders_with_its_cursor() {
    let mut readline: Readline<u8> = Readline::new(7);
    readline.set_line("abcde");
    readline.width(3);
    let ctx = RenderContext::new(RenderBound::new(Some(3), None), Some(7), "Readline");
    let block: Block = readline.block(ctx).unwrap();
    assert_eq!(block.size(), Size::new(3, 2));
    assert_eq!(row_texts(&block), vec!["abc", "de "]);
    assert_eq!(block.get_cursor(7), Some(Pos::new(1, 1)));
    let free = RenderContext::new(RenderBound::new(None, None), Some(7), "Readline");
    assert_eq!(
        readline.block::<u8, u8>(free).err(),
        Some(LayoutError::Unconstrained(text_ui::Direction::Horizontal))
    );
}

#[test]
fn simple_input_edits_and_submits() {
    let mut inner: SimpleInputInner<String> = SimpleInputInner::new(3);
    inner.add_listener("keeps".to_string());
    inner.add_listener("leaves".to_string());
    let told = std::cell::RefCell::new(Vec::new());
    let notify = |listener: &String, event: &SimpleInputEvent| {
        let SimpleInputEvent::Submitted { name, line } = event;
        told.borrow_mut().push((listener.clone(), **name, line.to_string()));
        listener == "keeps"
    };
    assert_eq!(inner.handle_key(Key::Char('b'), &notify), ShouldPropagate::Stop);
    inner.set_index(0);
    assert_eq!(inner.handle_key(Key::Char('a'), &notify), ShouldPropagate::Stop);
    assert_eq!(inner.handle_key(Key::Esc, &notify), ShouldPropagate::Continue);
    assert_eq!(inner.handle_key(Key::Left, &notify), ShouldPropagate::Continue);
    inner.set_index(99);
    assert_eq!(inner.handle_key(Key::Char('c'), &notify), ShouldPropagate::Stop);
    assert_eq!(inner.handle_key(Key::Char('\n'), &notify), ShouldPropagate::Stop);
    assert_eq!(
        *told.borrow(),
        vec![("keeps".to_string(), 3, "abc".to_string()), ("leaves".to_string(), 3, "abc".to_string())]
    );
    told.borrow_mut().clear();
    inner.handle_key(Key::Char('\n'), &notify);
    assert_eq!(*told.borrow(), vec![("keeps".to_string(), 3, "".to_string())]);
}

#[test]
fn simple_input_renders_one_row() {
    let mut input: SimpleInput<u8> = SimpleInput::new(3).add_listener(1);
    let notify = |_: &u8, _: &SimpleInputEvent| true;
    for ch in "hello".chars() {
        input.inner().handle_key(Key::Char(ch), &notify);
    }
    let ctx = RenderContext::new(RenderBound::new(Some(8), Some(4)), Some(3), "SimpleInput");
    let block: Block = input.block(ctx);
    assert_eq!(block.size(), Size::new(8, 1));
    assert_eq!(row_texts(&block), vec!["hello   "]);
    assert_eq!(block.get_cursor(3), Some(Pos::new(5, 0)));
    let narrow = RenderContext::new(RenderBound::new(Some(2), None), Some(3), "SimpleInput");
    let block: Block = input.block(narrow);
    assert_eq!(row_texts(&block), vec!["he"]);
    assert_eq!(block.get_cursor(3), Some(Pos::new(5, 0)));
}

#[test]
fn line_buffer_searches_characters() {
    let mut buffer = line("a,b,c", 0);
    assert!(buffer.move_to(CharSearch::Forward(','), 1));
    assert_eq!(buffer.pos(), 1);
    assert!(buffer.move_to(CharSearch::Forward(','), 1));
    assert_eq!(buffer.pos(), 3);
    assert!(!buffer.move_to(CharSearch::Forward(','), 1));
    assert!(!buffer.move_to(CharSearch::Forward('c'), 0));
    assert!(line("a,b,c", 0).move_to(CharSearch::Forward(','), 2));
    assert!(!line("a,b,c", 0).move_to(CharSearch::ForwardBefore(','), 1));
    let mut before = line("a,b,c", 0);
    assert!(before.move_to(CharSearch::ForwardBefore(','), 2));
    assert_eq!(before.pos(), 2);
    let mut back = line("a,b,c", 4);
    assert!(back.move_to(CharSearch::Backward(','), 1));
    assert_eq!(back.pos(), 3);
    let mut after = line("a,b,c", 4);
    assert!(after.move_to(CharSearch::BackwardAfter(','), 2));
    assert_eq!(after.pos(), 2);
    assert!(!line("a,b,c", 0).move_to(CharSearch::Backward(','), 1));
    let mut cut = line("a,b,c", 0);
    assert_eq!(cut.delete_to(CharSearch::Forward(','), 1), Some("a,".to_string()));
    assert_eq!((cut.as_str().as_str(), cut.pos()), ("b,c", 0));
    assert_eq!(cut.delete_to(CharSearch::Forward('x'), 1), None);
    let mut tail = line("a,b,c", 5);
    assert_eq!(tail.delete_to(CharSearch::Backward(','), 1), Some(",c".to_string()));
    assert_eq!((tail.as_str().as_str(), tail.pos()), ("a,b", 3));
}

#[test]
fn line_buffer_changes_the_case_of_words() {
    let mut buffer = line("hello wORLD", 0);
    assert!(buffer.edit_word(WordAction::CAPITALIZE));
    assert_eq!((buffer.as_str().as_str(), buffer.pos()), ("Hello wORLD", 5));
    assert!(buffer.edit_word(WordAction::CAPITALIZE));
    assert_eq!((buffer.as_str().as_str(), buffer.pos()), ("Hello World", 11));
    assert!(!buffer.edit_word(WordAction::UPPERCASE));
    buffer.move_home();
    assert!(buffer.edit_word(WordAction::UPPERCASE));
    assert!(buffer.edit_word(WordAction::LOWERCASE));
    assert_eq!(buffer.as_str(), "HELLO world");
}

#[test]
fn line_buffer_transposes_words() {
    let mut buffer = line("one two three", 3);
    assert!(buffer.transpose_words(1));
    assert_eq!((buffer.as_str().as_str(), buffer.pos()), ("two one three", 7));
    assert!(buffer.transpose_words(1));
    assert_eq!((buffer.as_str().as_str(), buffer.pos()), ("two three one", 13));
    assert!(buffer.transpose_words(1));
    assert_eq!(buffer.as_str(), "two one three");
    assert!(!line("one", 0).transpose_words(1));
    assert!(!line("one two", 0).transpose_words(0));
    let mut twice = line("a b c", 1);
    assert!(twice.transpose_words(2));
    assert_eq!(twice.as_str(), "b c a");
}

#[test]
fn state_word_edits_and_searches() {
    let mut s = init_state("one two", 0);
    s.edit_word(WordAction::UPPERCASE);
    s.edit_transpose_words(1);
    assert_eq!((s.line.as_str().as_str(), s.cursor), ("two ONE", Offset::new(7, 0)));
    s.edit_move_to(CharSearch::Backward('w'), 1);
    assert_eq!(s.cursor, Offset::new(1, 0));
    assert_eq!(s.edit_delete_to(CharSearch::ForwardBefore('O'), 1), Some("wo ".to_string()));
    assert_eq!(s.line.as_str(), "tONE");
    let mut editor = Editor::new();
    let keys = InputState::new();
    process_command(&mut s, &mut editor, Cmd::Kill(Movement::ViCharSearch(1, CharSearch::Forward('N'))), &keys);
    process_command(&mut s, &mut editor, Cmd::Move(Movement::EndOfLine), &keys);
    process_command(&mut s, &mut editor, Cmd::Yank(1, Anchor::Before), &keys);
    assert_eq!(s.line.as_str(), "tEON");
    process_command(&mut s, &mut editor, Cmd::Move(Movement::ViFirstPrint), &keys);
    assert_eq!(s.line.pos(), 4);
    process_command(&mut s, &mut editor, Cmd::DowncaseWord, &keys);
    assert_eq!(s.line.as_str(), "tEON");
    process_command(&mut s, &mut editor, Cmd::Move(Movement::BeginningOfLine), &keys);
    process_command(&mut s, &mut editor, Cmd::CapitalizeWord, &keys);
    process_command(&mut s, &mut editor, Cmd::Move(Movement::ViCharSearch(1, CharSearch::Backward('e'))), &keys);
    process_command(&mut s, &mut editor, Cmd::UpcaseWord, &keys);
    process_command(&mut s, &mut editor, Cmd::TransposeWords(1), &keys);
    assert_eq!(s.line.as_str(), "TEON");
}

#[test]
fn history_is_looked_at_from_past_its_end() {
    let mut history = History::new();
    for entry in ["first", "second"] {
        history.add(entry);
    }
    let mut s = init_state("draft", 5);
    s.history_index = 7;
    s.edit_history_next(&history, true);
    assert_eq!((s.line.as_str().as_str(), s.history_index), ("", 6));
    s.edit_history_next(&history, false);
    assert_eq!((s.line.as_str().as_str(), s.history_index), ("", 7));
    s.edit_history(&history, true);
    assert_eq!((s.line.as_str().as_str(), s.history_index), ("first", 0));
    s.history_index = 9;
    s.edit_history_search(&history, Direction::Reverse);
    assert_eq!(s.history_index, 8);
}
