use text_ui::ast::{Content, Element};
use text_ui::widget::readline::history::History;
use text_ui::widget::readline::state::init_state;

#[test]
fn it_works() {
    let ex1 = Element::line("lol");
    assert_eq!(ex1.content, Content::Line("lol".to_owned()));
}

#[test]
fn edit_history_next() {
    let line = "current edited line";
    let mut s = init_state(line, 6);
    let mut history = History::new();
    history.add("line0");
    history.add("line1");
    s.history_index = history.len();

    for _ in 0..2 {
        s.edit_history_next(&history, false);
        assert_eq!(line, s.line.as_str());
    }

    s.edit_history_next(&history, true);
    assert_eq!(line, s.saved_line_for_history.as_str());
    assert_eq!(1, s.history_index);
    assert_eq!("line1", s.line.as_str());

    for _ in 0..2 {
        s.edit_history_next(&history, true);
        assert_eq!(line, s.saved_line_for_history.as_str());
        assert_eq!(0, s.history_index);
        assert_eq!("line0", s.line.as_str());
    }

    s.edit_history_next(&history, false);
    assert_eq!(line, s.saved_line_for_history.as_str());
    assert_eq!(1, s.history_index);
    assert_eq!("line1", s.line.as_str());

    s.edit_history_next(&history, false);
    // assert_eq!(line, s.saved_line_for_history);
    assert_eq!(2, s.history_index);
    assert_eq!(line, s.line.as_str());
}
