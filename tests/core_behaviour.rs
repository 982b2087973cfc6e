use iota::buffer::{Buffer, Mark, SaveError};
use iota::editor::{Action, Editor, EditorEvent, Event, ModeType};
use iota::keyboard::{parse_keys, Key};
use iota::keymap::{KeyMap, KeyMapState};
use iota::overlay::{Overlay, OverlayEvent, OverlayType};
use iota::textobject::{resolve, Kind, Offset, Range, TextObject};
use iota::window::Window;

fn chars(s: &str) -> Vec<char> {
    s.chars().collect()
}

fn text_of(w: &Window) -> String {
    w.buffer().text().iter().collect()
}

fn back_one() -> TextObject {
    TextObject { kind: Kind::Char, offset: Offset::Backward(1, Mark::Cursor(0)) }
}

#[test]
fn event_keeps_its_name() {
    let e = Event::new("iota.save");
    assert_eq!(e.get_name(), "iota.save");
}

#[test]
fn key_names_parse() {
    assert_eq!(Key::from_name("ctrl-q"), Some(Key::Ctrl('q')));
    assert_eq!(Key::from_name("up"), Some(Key::Up));
    assert_eq!(Key::from_name("backspace"), Some(Key::Backspace));
    assert_eq!(Key::from_name("x"), Some(Key::Char('x')));
    assert_eq!(Key::from_name("space"), Some(Key::Char(' ')));
    assert_eq!(Key::from_name("nonsense"), None);
    assert_eq!(Key::from_name(""), None);
}

#[test]
fn key_lists_parse() {
    assert_eq!(parse_keys("ctrl-x ctrl-s"), Some(vec![Key::Ctrl('x'), Key::Ctrl('s')]));
    assert_eq!(parse_keys("a b"), Some(vec![Key::Char('a'), Key::Char('b')]));
    assert_eq!(parse_keys("a bogus"), None);
    assert_eq!(parse_keys("a  b"), None);
}

#[test]
fn longer_binding_wins_over_its_prefix() {
    let mut km: KeyMap<u32> = KeyMap::new();
    km.bind_keys(&vec![Key::Char('a'), Key::Char('b')], 1);
    km.bind_keys(&vec![Key::Char('a')], 2);
    assert_eq!(km.check_key(Key::Char('a')), KeyMapState::Continue);
    assert_eq!(km.check_key(Key::Char('b')), KeyMapState::Match(1));
}

#[test]
fn shadowed_prefix_gives_no_match_on_other_key() {
    let mut km: KeyMap<u32> = KeyMap::new();
    km.bind_keys(&vec![Key::Char('a'), Key::Char('b')], 1);
    km.bind_keys(&vec![Key::Char('a')], 2);
    assert_eq!(km.check_key(Key::Char('a')), KeyMapState::Continue);
    assert_eq!(km.check_key(Key::Char('x')), KeyMapState::NoMatch);
    assert_eq!(km.check_key(Key::Char('a')), KeyMapState::Continue);
}

#[test]
fn single_binding_matches_and_resets() {
    let mut km: KeyMap<u32> = KeyMap::new();
    km.bind_keys(&vec![Key::Char('a')], 2);
    assert_eq!(km.check_key(Key::Char('a')), KeyMapState::Match(2));
    assert_eq!(km.check_key(Key::Char('a')), KeyMapState::Match(2));
    assert_eq!(km.check_key(Key::Char('z')), KeyMapState::NoMatch);
}

#[test]
fn rebinding_overwrites() {
    let mut km: KeyMap<u32> = KeyMap::new();
    km.bind_keys(&vec![Key::Ctrl('s')], 1);
    km.bind_keys(&vec![Key::Ctrl('s')], 7);
    assert_eq!(km.check_key(Key::Ctrl('s')), KeyMapState::Match(7));
}

#[test]
fn prompt_confirms_typed_text() {
    let mut o = Overlay::new(OverlayType::Prompt);
    assert_eq!(o.handle_key(Key::Char('h')), OverlayEvent::Continue);
    assert_eq!(o.handle_key(Key::Char('i')), OverlayEvent::Continue);
    assert_eq!(o.handle_key(Key::Enter), OverlayEvent::Finished(Some(chars("hi"))));
}

#[test]
fn prompt_cancel_drops_text() {
    let mut o = Overlay::new(OverlayType::SavePrompt);
    o.handle_key(Key::Char('h'));
    o.handle_key(Key::Char('i'));
    assert_eq!(o.handle_key(Key::Esc), OverlayEvent::Finished(None));
    let mut empty = Overlay::new(OverlayType::Prompt);
    assert_eq!(empty.handle_key(Key::Esc), OverlayEvent::Finished(None));
}

#[test]
fn prompt_backspace_removes_last() {
    let mut o = Overlay::new(OverlayType::Prompt);
    o.handle_key(Key::Backspace);
    o.handle_key(Key::Char('a'));
    o.handle_key(Key::Char('b'));
    o.handle_key(Key::Backspace);
    assert_eq!(o.handle_key(Key::Enter), OverlayEvent::Finished(Some(chars("a"))));
}

#[test]
fn inactive_overlay_passes_keys() {
    let mut o = Overlay::inactive();
    assert!(!o.is_active());
    assert_eq!(o.handle_key(Key::Enter), OverlayEvent::Continue);
}

#[test]
fn hello_deleted_and_restored() {
    let mut w = Window::new(Buffer::new(), 80, 24);
    for c in "hello".chars() {
        assert!(w.insert_char(c));
    }
    assert_eq!(text_of(&w), "hello");
    assert_eq!(w.cursor_position(), 5);
    for _ in 0..5 {
        w.delete_from_mark_to_object(Mark::Cursor(0), back_one());
    }
    assert_eq!(text_of(&w), "");
    assert_eq!(w.cursor_position(), 0);
    for _ in 0..5 {
        w.undo();
    }
    assert_eq!(text_of(&w), "hello");
    assert_eq!(w.cursor_position(), 5);
}

#[test]
fn undo_after_insert_restores_text_and_marks() {
    let mut b = Buffer::from_text(chars("abcdef"), None);
    b.set_mark(Mark::Cursor(0), 2);
    b.set_mark(Mark::DisplayMark(0), 4);
    assert!(b.insert(Mark::Cursor(0), &chars("XY")));
    assert_eq!(b.text(), &chars("abXYcdef"));
    assert_eq!(b.mark_position(Mark::Cursor(0)), Some(4));
    assert_eq!(b.mark_position(Mark::DisplayMark(0)), Some(6));
    b.undo();
    assert_eq!(b.text(), &chars("abcdef"));
    assert_eq!(b.mark_position(Mark::Cursor(0)), Some(2));
    assert_eq!(b.mark_position(Mark::DisplayMark(0)), Some(4));
}

#[test]
fn undo_after_delete_restores_collapsed_mark() {
    let mut b = Buffer::from_text(chars("abcdef"), None);
    b.set_mark(Mark::Cursor(0), 3);
    b.set_mark(Mark::DisplayMark(0), 5);
    b.delete_range(1, 4);
    assert_eq!(b.text(), &chars("aef"));
    assert_eq!(b.mark_position(Mark::Cursor(0)), Some(1));
    assert_eq!(b.mark_position(Mark::DisplayMark(0)), Some(2));
    b.undo();
    assert_eq!(b.text(), &chars("abcdef"));
    assert_eq!(b.mark_position(Mark::Cursor(0)), Some(3));
    assert_eq!(b.mark_position(Mark::DisplayMark(0)), Some(5));
}

#[test]
fn delete_range_clamps() {
    let mut b = Buffer::from_text(chars("abc"), None);
    b.delete_range(2, 99);
    assert_eq!(b.text(), &chars("ab"));
    b.delete_range(5, 9);
    assert_eq!(b.text(), &chars("ab"));
}

#[test]
fn redo_replays_and_new_edit_clears_it() {
    let mut b = Buffer::from_text(chars("ab"), None);
    b.set_mark(Mark::Cursor(0), 2);
    b.insert(Mark::Cursor(0), &chars("c"));
    b.undo();
    assert_eq!(b.text(), &chars("ab"));
    b.redo();
    assert_eq!(b.text(), &chars("abc"));
    assert_eq!(b.mark_position(Mark::Cursor(0)), Some(3));
    b.undo();
    b.insert(Mark::Cursor(0), &chars("z"));
    b.redo();
    assert_eq!(b.text(), &chars("abz"));
}

#[test]
fn redo_with_nothing_to_redo_changes_nothing() {
    let mut b = Buffer::from_text(chars("xyz"), None);
    b.set_mark(Mark::Cursor(0), 1);
    b.insert(Mark::Cursor(0), &chars("q"));
    b.redo();
    assert_eq!(b.text(), &chars("xqyz"));
    assert_eq!(b.mark_position(Mark::Cursor(0)), Some(2));
    b.undo();
    assert_eq!(b.text(), &chars("xyz"));
}

#[test]
fn undo_on_empty_history_is_noop() {
    let mut b = Buffer::from_text(chars("xyz"), None);
    b.undo();
    assert_eq!(b.text(), &chars("xyz"));
    assert!(!b.is_dirty());
}

#[test]
fn insert_at_unknown_mark_is_refused() {
    let mut b = Buffer::from_text(chars("xyz"), None);
    assert!(!b.insert(Mark::Cursor(3), &chars("q")));
    assert_eq!(b.text(), &chars("xyz"));
}

#[test]
fn backward_and_forward_ranges_meet_at_mark() {
    let mut b = Buffer::from_text(chars("abcdefgh"), None);
    b.set_mark(Mark::Cursor(0), 3);
    let back = TextObject { kind: Kind::Char, offset: Offset::Backward(2, Mark::Cursor(0)) };
    let fwd = TextObject { kind: Kind::Char, offset: Offset::Forward(2, Mark::Cursor(0)) };
    assert_eq!(resolve(&b, 0, back), Some(Range { start: 1, end: 3 }));
    assert_eq!(resolve(&b, 0, fwd), Some(Range { start: 3, end: 5 }));
    let far_back = TextObject { kind: Kind::Char, offset: Offset::Backward(10, Mark::Cursor(0)) };
    let far_fwd = TextObject { kind: Kind::Char, offset: Offset::Forward(10, Mark::Cursor(0)) };
    assert_eq!(resolve(&b, 0, far_back), Some(Range { start: 0, end: 3 }));
    assert_eq!(resolve(&b, 0, far_fwd), Some(Range { start: 3, end: 8 }));
}

#[test]
fn line_objects_and_absolute() {
    let mut b = Buffer::from_text(chars("ab\ncdef\ng"), None);
    b.set_mark(Mark::Cursor(0), 5);
    let sol = TextObject { kind: Kind::StartOfLine, offset: Offset::Backward(1, Mark::Cursor(0)) };
    let eol = TextObject { kind: Kind::EndOfLine, offset: Offset::Forward(1, Mark::Cursor(0)) };
    assert_eq!(resolve(&b, 0, sol), Some(Range { start: 3, end: 5 }));
    assert_eq!(resolve(&b, 0, eol), Some(Range { start: 5, end: 7 }));
    let abs = TextObject { kind: Kind::Char, offset: Offset::Absolute(100) };
    assert_eq!(resolve(&b, 4, abs), Some(Range { start: 4, end: 9 }));
    let missing = TextObject { kind: Kind::Char, offset: Offset::Forward(1, Mark::Cursor(9)) };
    assert_eq!(resolve(&b, 0, missing), None);
}

#[test]
fn cursor_moves_between_lines() {
    let mut w = Window::new(Buffer::from_text(chars("abcd\nxy\nlong line"), None), 80, 24);
    w.move_right();
    w.move_right();
    w.move_right();
    assert_eq!(w.cursor_position(), 3);
    w.move_down();
    assert_eq!(w.cursor_position(), 7);
    w.move_down();
    assert_eq!(w.cursor_position(), 10);
    w.move_up();
    assert_eq!(w.cursor_position(), 7);
    w.move_up();
    assert_eq!(w.cursor_position(), 2);
    w.move_up();
    assert_eq!(w.cursor_position(), 2);
    w.move_left();
    w.move_left();
    w.move_left();
    assert_eq!(w.cursor_position(), 0);
}

#[test]
fn window_scrolls_to_cursor() {
    let mut w = Window::new(Buffer::from_text(chars("0\n1\n2\n3\n4\n5"), None), 10, 2);
    assert_eq!(w.top_line(), 0);
    w.move_down();
    w.move_down();
    w.move_down();
    assert_eq!(w.top_line(), 2);
    w.resize(10, 1);
    assert_eq!(w.top_line(), 3);
    w.move_up();
    assert_eq!(w.top_line(), 2);
}

#[test]
fn save_path_rules() {
    let b = Buffer::new();
    assert_eq!(b.save_path(None), Err(SaveError::NoPath));
    assert_eq!(b.save_path(Some(chars("out.txt"))), Ok(chars("out.txt")));
    let mut named = Buffer::from_text(chars("x"), Some(chars("a.txt")));
    assert_eq!(named.save_path(None), Ok(chars("a.txt")));
    named.delete_range(0, 1);
    assert!(named.is_dirty());
    named.mark_saved(chars("b.txt"));
    assert!(!named.is_dirty());
    assert_eq!(named.save_path(None), Ok(chars("b.txt")));
}

#[test]
fn action_names() {
    assert_eq!(Action::from_name("iota.quit"), Some(Action::Quit));
    assert_eq!(Action::from_name("iota.delete_backwards"), Some(Action::DeleteBackwards));
    assert_eq!(Action::from_name("iota.nothing"), None);
}

#[test]
fn ctrl_q_stops_the_editor() {
    let mut ed = Editor::new(Buffer::new(), ModeType::Insert, 80, 24);
    ed.start();
    assert!(ed.running());
    ed.handle_event(EditorEvent::KeyEvent(Some(Key::Ctrl('q'))));
    assert!(!ed.running());
}

#[test]
fn editor_inserts_and_deletes_in_insert_mode() {
    let mut ed = Editor::new(Buffer::new(), ModeType::Insert, 80, 24);
    ed.start();
    for c in "hey".chars() {
        ed.handle_event(EditorEvent::KeyEvent(Some(Key::Char(c))));
    }
    assert_eq!(text_of(ed.window()), "hey");
    ed.handle_event(EditorEvent::KeyEvent(Some(Key::Backspace)));
    assert_eq!(text_of(ed.window()), "he");
    ed.handle_event(EditorEvent::KeyEvent(Some(Key::Ctrl('z'))));
    assert_eq!(text_of(ed.window()), "hey");
    ed.handle_event(EditorEvent::KeyEvent(Some(Key::Enter)));
    assert_eq!(text_of(ed.window()), "hey\n");
    ed.handle_event(EditorEvent::KeyEvent(Some(Key::Left)));
    ed.handle_event(EditorEvent::KeyEvent(Some(Key::Delete)));
    assert_eq!(text_of(ed.window()), "hey");
    ed.handle_event(EditorEvent::KeyEvent(None));
    ed.handle_event(EditorEvent::Other);
    assert!(ed.running());
}

#[test]
fn normal_mode_ignores_unbound_characters() {
    let mut ed = Editor::new(Buffer::new(), ModeType::Normal, 80, 24);
    ed.start();
    ed.handle_event(EditorEvent::KeyEvent(Some(Key::Char('x'))));
    assert_eq!(text_of(ed.window()), "");
}

#[test]
fn save_key_requests_a_save() {
    let mut ed = Editor::new(Buffer::new(), ModeType::Insert, 80, 24);
    ed.start();
    ed.handle_event(EditorEvent::KeyEvent(Some(Key::Ctrl('s'))));
    assert!(ed.take_save_request());
    assert!(!ed.take_save_request());
}

#[test]
fn custom_binding_with_two_keys() {
    let mut ed = Editor::new(Buffer::new(), ModeType::Insert, 80, 24);
    ed.start();
    ed.bind_keys("ctrl-x ctrl-c", "iota.quit");
    ed.handle_event(EditorEvent::KeyEvent(Some(Key::Ctrl('x'))));
    assert!(ed.running());
    ed.handle_event(EditorEvent::KeyEvent(Some(Key::Ctrl('c'))));
    assert!(!ed.running());
}

#[test]
fn resize_reaches_window() {
    let mut ed = Editor::new(Buffer::new(), ModeType::Insert, 80, 24);
    ed.handle_event(EditorEvent::Resize(100, 40));
    assert!(ed.running());
    assert_eq!(ed.window().top_line(), 0);
}

#[test]
fn command_prompt_quit() {
    let mut ed = Editor::new(Buffer::new(), ModeType::Insert, 80, 24);
    ed.start();
    ed.set_overlay(OverlayType::Prompt);
    ed.handle_event(EditorEvent::KeyEvent(Some(Key::Char('q'))));
    assert!(ed.running());
    assert_eq!(text_of(ed.window()), "");
    ed.handle_event(EditorEvent::KeyEvent(Some(Key::Enter)));
    assert!(!ed.running());
}

#[test]
fn command_prompt_write_and_unknown() {
    let mut ed = Editor::new(Buffer::new(), ModeType::Insert, 80, 24);
    ed.set_overlay(OverlayType::Prompt);
    for c in "write".chars() {
        ed.handle_event(EditorEvent::KeyEvent(Some(Key::Char(c))));
    }
    ed.handle_event(EditorEvent::KeyEvent(Some(Key::Enter)));
    assert!(ed.take_save_request());
    assert!(ed.window().overlay_type().is_none());
    ed.set_overlay(OverlayType::Prompt);
    ed.handle_event(EditorEvent::KeyEvent(Some(Key::Char('z'))));
    ed.handle_event(EditorEvent::KeyEvent(Some(Key::Enter)));
    assert!(!ed.take_save_request());
    assert!(ed.running());
}

#[test]
fn word_objects() {
    let mut b = Buffer::from_text(chars("one two  three"), None);
    b.set_mark(Mark::Cursor(0), 4);
    let fwd = TextObject { kind: Kind::Word, offset: Offset::Forward(1, Mark::Cursor(0)) };
    assert_eq!(resolve(&b, 0, fwd), Some(Range { start: 4, end: 7 }));
    let fwd2 = TextObject { kind: Kind::Word, offset: Offset::Forward(2, Mark::Cursor(0)) };
    assert_eq!(resolve(&b, 0, fwd2), Some(Range { start: 4, end: 14 }));
    let fwd9 = TextObject { kind: Kind::Word, offset: Offset::Forward(9, Mark::Cursor(0)) };
    assert_eq!(resolve(&b, 0, fwd9), Some(Range { start: 4, end: 14 }));
    b.set_mark(Mark::Cursor(0), 9);
    let back = TextObject { kind: Kind::Word, offset: Offset::Backward(1, Mark::Cursor(0)) };
    assert_eq!(resolve(&b, 0, back), Some(Range { start: 4, end: 9 }));
    let back2 = TextObject { kind: Kind::Word, offset: Offset::Backward(2, Mark::Cursor(0)) };
    assert_eq!(resolve(&b, 0, back2), Some(Range { start: 0, end: 9 }));
}

#[test]
fn save_prompt_sets_path_and_requests_save() {
    let mut ed = Editor::new(Buffer::new(), ModeType::Insert, 80, 24);
    ed.set_overlay(OverlayType::SavePrompt);
    for c in "f.txt".chars() {
        ed.handle_event(EditorEvent::KeyEvent(Some(Key::Char(c))));
    }
    assert_eq!(text_of(ed.window()), "");
    ed.handle_event(EditorEvent::KeyEvent(Some(Key::Enter)));
    assert!(ed.take_save_request());
    assert_eq!(ed.window().buffer().save_path(None), Ok(chars("f.txt")));
    assert!(ed.window().overlay_type().is_none());
}

#[test]
fn save_prompt_cancel_queues_nothing() {
    let mut ed = Editor::new(Buffer::new(), ModeType::Insert, 80, 24);
    ed.start();
    ed.set_overlay(OverlayType::SavePrompt);
    ed.handle_event(EditorEvent::KeyEvent(Some(Key::Char('x'))));
    ed.handle_event(EditorEvent::KeyEvent(Some(Key::Backspace)));
    ed.handle_event(EditorEvent::KeyEvent(Some(Key::Esc)));
    assert!(!ed.take_save_request());
    assert_eq!(ed.window().buffer().save_path(None), Err(SaveError::NoPath));
    assert_eq!(text_of(ed.window()), "");
    assert!(ed.running());
}

#[test]
fn file_prompt_requests_open_then_buffer_replaced() {
    let mut ed = Editor::new(Buffer::from_text(chars("old"), None), ModeType::Insert, 80, 24);
    ed.set_overlay(OverlayType::SelectFile);
    ed.handle_event(EditorEvent::KeyEvent(Some(Key::Char('n'))));
    ed.handle_event(EditorEvent::KeyEvent(Some(Key::Enter)));
    assert_eq!(ed.take_open_request(), Some(chars("n")));
    assert_eq!(ed.take_open_request(), None);
    ed.open_buffer(Buffer::from_text(chars("new"), Some(chars("n"))));
    assert_eq!(text_of(ed.window()), "new");
    assert_eq!(ed.window().cursor_position(), 0);
}

#[test]
fn two_key_binding_matches_twice_in_editor() {
    let mut ed = Editor::new(Buffer::new(), ModeType::Insert, 80, 24);
    ed.bind_keys("a b", "iota.newline");
    ed.bind_keys("a", "iota.undo");
    ed.handle_event(EditorEvent::KeyEvent(Some(Key::Char('a'))));
    assert_eq!(text_of(ed.window()), "");
    ed.handle_event(EditorEvent::KeyEvent(Some(Key::Char('b'))));
    assert_eq!(text_of(ed.window()), "\n");
    ed.handle_event(EditorEvent::KeyEvent(Some(Key::Char('a'))));
    ed.handle_event(EditorEvent::KeyEvent(Some(Key::Char('b'))));
    assert_eq!(text_of(ed.window()), "\n\n");
    ed.handle_event(EditorEvent::KeyEvent(Some(Key::Char('z'))));
    assert_eq!(text_of(ed.window()), "\n\nz");
}

#[test]
fn moves_keep_history() {
    let mut w = Window::new(Buffer::new(), 80, 24);
    w.insert_char('a');
    w.insert_char('b');
    w.move_left();
    w.move_left();
    w.move_left();
    assert_eq!(w.cursor_position(), 0);
    w.undo();
    assert_eq!(text_of(&w), "a");
    w.redo();
    assert_eq!(text_of(&w), "ab");
}
