use rote::{BufferError, BufferId, Cursor, Editor};

fn head_of(ed: &Editor) -> usize {
    ed.cursor(ed.active_id().unwrap()).unwrap().head
}

fn text_of(ed: &Editor) -> String {
    ed.active_buffer().unwrap().text()
}

#[test]
fn open_file_uses_an_id_either_way() {
    let mut ed = Editor::new();
    let id = ed.open_file("x.py".to_string(), Ok("print(1)".to_string())).unwrap();
    assert_eq!(id, BufferId(0));
    assert_eq!(ed.active_id(), Some(BufferId(0)));
    assert_eq!(text_of(&ed), "print(1)");
    assert_eq!(ed.buffer(id).unwrap().path, Some("x.py".to_string()));
    let failed = ed.open_file(
        "y.py".to_string(),
        Err(std::io::Error::new(std::io::ErrorKind::NotFound, "no")),
    );
    assert!(matches!(failed, Err(BufferError::Io(_))));
    assert_eq!(ed.active_id(), Some(BufferId(0)));
    assert!(ed.buffer(BufferId(1)).is_none());
    assert_eq!(ed.new_buffer(), BufferId(2));
}

#[test]
fn set_active_ignores_unknown_ids() {
    let mut ed = Editor::new();
    let a = ed.new_buffer();
    let b = ed.new_buffer();
    assert_eq!(ed.active_id(), Some(b));
    ed.set_active(BufferId(99));
    assert_eq!(ed.active_id(), Some(b));
    ed.set_active(a);
    assert_eq!(ed.active_id(), Some(a));
}

#[test]
fn editing_without_a_buffer_does_nothing() {
    let mut ed = Editor::default();
    ed.insert_at_cursor("x").unwrap();
    ed.backspace_at_cursor().unwrap();
    ed.delete_forward_at_cursor().unwrap();
    assert_eq!(ed.delete_selection().unwrap(), false);
    ed.move_right(false);
    assert!(ed.active_buffer().is_none());
    assert!(ed.active_buffer_mut().is_none());
    assert!(ed.active_cursor_mut().is_none());
}

#[test]
fn delete_forward_removes_next_char() {
    let mut ed = Editor::new();
    ed.new_buffer();
    ed.insert_at_cursor("abc").unwrap();
    ed.delete_forward_at_cursor().unwrap();
    assert_eq!(text_of(&ed), "abc");
    ed.move_buffer_start(false);
    ed.delete_forward_at_cursor().unwrap();
    assert_eq!(text_of(&ed), "bc");
    assert_eq!(head_of(&ed), 0);
    ed.backspace_at_cursor().unwrap();
    assert_eq!(text_of(&ed), "bc");
}

#[test]
fn backspace_and_delete_consume_a_selection() {
    let mut ed = Editor::new();
    ed.new_buffer();
    ed.insert_at_cursor("hello world").unwrap();
    ed.move_word_left(true);
    ed.backspace_at_cursor().unwrap();
    assert_eq!(text_of(&ed), "hello ");
    assert_eq!(head_of(&ed), 6);
    ed.move_buffer_start(false);
    ed.move_right(true);
    ed.move_right(true);
    ed.delete_forward_at_cursor().unwrap();
    assert_eq!(text_of(&ed), "llo ");
    assert_eq!(head_of(&ed), 0);
}

#[test]
fn word_motion_treats_unicode_space_as_whitespace() {
    let mut ed = Editor::new();
    ed.new_buffer();
    ed.insert_at_cursor("foo\u{3000}bär").unwrap();
    ed.move_word_left(false);
    assert_eq!(head_of(&ed), 4);
    ed.move_word_left(false);
    assert_eq!(head_of(&ed), 0);
    ed.move_word_right(false);
    assert_eq!(head_of(&ed), 3);
    ed.move_word_right(false);
    assert_eq!(head_of(&ed), 7);
}

#[test]
fn word_motion_stops_at_punctuation_runs() {
    let mut ed = Editor::new();
    ed.new_buffer();
    ed.insert_at_cursor("a_b::c").unwrap();
    ed.move_word_left(false);
    assert_eq!(head_of(&ed), 5);
    ed.move_word_left(false);
    assert_eq!(head_of(&ed), 3);
    ed.move_word_left(false);
    assert_eq!(head_of(&ed), 0);
}

#[test]
fn line_end_stops_before_crlf() {
    let mut ed = Editor::new();
    ed.new_buffer();
    ed.insert_at_cursor("ab\r\ncd").unwrap();
    ed.move_buffer_start(false);
    ed.move_line_end(false);
    assert_eq!(head_of(&ed), 2);
    ed.move_down(false);
    assert_eq!(head_of(&ed), 6);
    ed.move_up(false);
    assert_eq!(head_of(&ed), 2);
    ed.move_up(false);
    assert_eq!(head_of(&ed), 0);
}

#[test]
fn set_cursor_pos_clamps_and_extends() {
    let mut ed = Editor::new();
    ed.new_buffer();
    ed.insert_at_cursor("abcd").unwrap();
    ed.set_cursor_pos(100, false);
    assert_eq!(head_of(&ed), 4);
    ed.set_cursor_pos(1, true);
    let id = ed.active_id().unwrap();
    assert_eq!(ed.cursor(id).unwrap().selection_range(), Some((1, 4)));
    ed.move_left(false);
    assert_eq!(ed.cursor(id).unwrap().selection_range(), None);
    assert_eq!(head_of(&ed), 0);
}

#[test]
fn cursor_mut_edits_the_stored_cursor() {
    let mut ed = Editor::new();
    let id = ed.new_buffer();
    ed.insert_at_cursor("xyz").unwrap();
    ed.cursor_mut(id).unwrap().move_to(1);
    assert_eq!(head_of(&ed), 1);
    ed.active_buffer_mut().unwrap().insert(0, "w").unwrap();
    assert_eq!(ed.buffer_mut(id).unwrap().text(), "wxyz");
    assert!(ed.cursor_mut(BufferId(7)).is_none());
}

#[test]
fn cursor_selection_helpers() {
    let mut c = Cursor::at(3);
    assert!(!c.has_selection());
    assert_eq!(c.selection_range(), None);
    c.extend_to(3);
    assert!(!c.has_selection());
    assert_eq!(c.selection_range(), Some((3, 3)));
    c.extend_to(1);
    assert!(c.has_selection());
    assert_eq!(c.selection_range(), Some((1, 3)));
    c.extend_to(5);
    assert_eq!(c.selection_range(), Some((3, 5)));
    c.collapse();
    assert_eq!(c.head, 5);
    assert_eq!(c.anchor, None);
}

#[test]
fn undo_through_the_editor_restores_text() {
    let mut ed = Editor::new();
    ed.new_buffer();
    ed.insert_at_cursor("one").unwrap();
    ed.insert_at_cursor(" two").unwrap();
    assert!(ed.active_buffer_mut().unwrap().undo());
    assert_eq!(text_of(&ed), "one");
}

#[test]
fn empty_selection_is_no_selection() {
    let mut ed = Editor::new();
    ed.new_buffer();
    ed.insert_at_cursor("abc").unwrap();
    ed.set_cursor_pos(2, false);
    ed.set_cursor_pos(2, true);
    let id = ed.active_id().unwrap();
    assert_eq!(ed.cursor(id).unwrap().selection_range(), Some((2, 2)));
    assert_eq!(ed.delete_selection().unwrap(), false);
    assert_eq!(text_of(&ed), "abc");
    ed.backspace_at_cursor().unwrap();
    assert_eq!(text_of(&ed), "ac");
    assert_eq!(head_of(&ed), 1);
    ed.set_cursor_pos(1, true);
    ed.delete_forward_at_cursor().unwrap();
    assert_eq!(text_of(&ed), "a");
    assert_eq!(head_of(&ed), 1);
}

#[test]
fn shift_left_at_start_then_backspace_does_nothing() {
    let mut ed = Editor::new();
    ed.new_buffer();
    ed.insert_at_cursor("ab").unwrap();
    ed.move_buffer_start(false);
    ed.move_left(true);
    ed.backspace_at_cursor().unwrap();
    assert_eq!(text_of(&ed), "ab");
    ed.delete_forward_at_cursor().unwrap();
    assert_eq!(text_of(&ed), "b");
}
