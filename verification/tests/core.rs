use rote::{Buffer, BufferId, Editor};

#[test]
fn insert_and_undo() {
    let mut buf = Buffer::from_str(BufferId(0), "hello");
    buf.insert(5, " world").unwrap();
    assert_eq!(buf.text(), "hello world");
    assert!(buf.undo());
    assert_eq!(buf.text(), "hello");
    assert!(buf.redo());
    assert_eq!(buf.text(), "hello world");
}

#[test]
fn delete_range() {
    let mut buf = Buffer::from_str(BufferId(0), "hello world");
    buf.delete(5, 11).unwrap();
    assert_eq!(buf.text(), "hello");
}

#[test]
fn insert_and_backspace_move_cursor() {
    let mut ed = Editor::new();
    ed.new_buffer();
    ed.insert_at_cursor("hi").unwrap();
    assert_eq!(ed.active_buffer().unwrap().text(), "hi");
    assert_eq!(ed.cursor(ed.active_id().unwrap()).unwrap().head, 2);
    ed.backspace_at_cursor().unwrap();
    assert_eq!(ed.active_buffer().unwrap().text(), "h");
    assert_eq!(ed.cursor(ed.active_id().unwrap()).unwrap().head, 1);
}

fn head(ed: &Editor) -> usize {
    ed.cursor(ed.active_id().unwrap()).unwrap().head
}

#[test]
fn word_and_line_motions() {
    let mut ed = Editor::new();
    ed.new_buffer();
    ed.insert_at_cursor("foo bar\nbaz").unwrap();
    // cursor is at end ("baz" end, offset 11)
    ed.move_line_start(false);
    assert_eq!(head(&ed), 8); // start of "baz"
    ed.move_word_left(false);
    assert_eq!(head(&ed), 4); // start of "bar" (past the newline, which counts as whitespace)
    ed.move_word_left(false);
    assert_eq!(head(&ed), 0); // start of "foo"
    ed.move_word_right(false);
    assert_eq!(head(&ed), 3); // end of "foo"
    ed.move_line_end(false);
    assert_eq!(head(&ed), 7); // end of "foo bar", before the \n
    ed.move_buffer_end(false);
    assert_eq!(head(&ed), 11);
    ed.move_buffer_start(false);
    assert_eq!(head(&ed), 0);
}

#[test]
fn vertical_motion_keeps_sticky_column() {
    let mut ed = Editor::new();
    ed.new_buffer();
    ed.insert_at_cursor("long line\nhi\nlong line").unwrap();
    ed.move_buffer_start(false);
    for _ in 0..7 {
        ed.move_right(false);
    }
    assert_eq!(head(&ed), 7);
    ed.move_down(false);
    // "hi" is only 2 chars, so the cursor clamps to end of that line...
    assert_eq!(head(&ed), 12);
    ed.move_down(false);
    // ...but remembers column 7 once back on a long enough line.
    assert_eq!(head(&ed), 20);
}

#[test]
fn selection_extends_and_deletes() {
    let mut ed = Editor::new();
    ed.new_buffer();
    ed.insert_at_cursor("hello world").unwrap();
    ed.move_buffer_start(false);
    for _ in 0..5 {
        ed.move_right(true);
    }
    let id = ed.active_id().unwrap();
    assert_eq!(ed.cursor(id).unwrap().selection_range(), Some((0, 5)));
    ed.insert_at_cursor("bye").unwrap();
    assert_eq!(ed.active_buffer().unwrap().text(), "bye world");
    assert_eq!(head(&ed), 3);
}

#[test]
fn select_all_selects_whole_buffer() {
    let mut ed = Editor::new();
    ed.new_buffer();
    ed.insert_at_cursor("hello").unwrap();
    ed.select_all();
    let id = ed.active_id().unwrap();
    assert_eq!(ed.cursor(id).unwrap().selection_range(), Some((0, 5)));
}
