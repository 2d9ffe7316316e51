use rote::{Buffer, BufferError, BufferId};

fn not_found() -> std::io::Error {
    std::io::Error::new(std::io::ErrorKind::NotFound, "missing")
}

#[test]
fn open_reads_contents() {
    let buf = Buffer::open(BufferId(3), "a.txt".to_string(), Ok("one\ntwo".to_string())).unwrap();
    assert_eq!(buf.id, BufferId(3));
    assert_eq!(buf.path, Some("a.txt".to_string()));
    assert_eq!(buf.text(), "one\ntwo");
    assert!(!buf.is_dirty());
    assert_eq!(buf.len_chars(), 7);
    assert_eq!(buf.len_lines(), 2);
    assert_eq!(buf.line(0), Some("one\n".to_string()));
    assert_eq!(buf.line(1), Some("two".to_string()));
    assert_eq!(buf.line(2), None);
}

#[test]
fn open_passes_read_error_through() {
    let r = Buffer::open(BufferId(0), "gone.txt".to_string(), Err(not_found()));
    match r {
        Err(BufferError::Io(e)) => assert_eq!(e.kind(), std::io::ErrorKind::NotFound),
        _ => panic!("expected an I/O error"),
    }
}

#[test]
fn save_without_path_is_not_found() {
    let mut buf = Buffer::from_str(BufferId(0), "x");
    buf.insert(1, "y").unwrap();
    match buf.save(Ok(())) {
        Err(BufferError::Io(e)) => assert_eq!(e.kind(), std::io::ErrorKind::NotFound),
        _ => panic!("expected an I/O error"),
    }
    assert!(buf.is_dirty());
    assert_eq!(buf.path, None);
}

#[test]
fn save_as_then_save() {
    let mut buf = Buffer::from_str(BufferId(0), "x");
    buf.insert(0, "w").unwrap();
    assert!(buf.is_dirty());
    buf.save_as("b.txt".to_string(), Ok(())).unwrap();
    assert_eq!(buf.path, Some("b.txt".to_string()));
    assert!(!buf.is_dirty());

    buf.insert(2, "z").unwrap();
    let denied = std::io::Error::new(std::io::ErrorKind::PermissionDenied, "no");
    match buf.save(Err(denied)) {
        Err(BufferError::Io(e)) => assert_eq!(e.kind(), std::io::ErrorKind::PermissionDenied),
        _ => panic!("expected an I/O error"),
    }
    assert!(buf.is_dirty());
    buf.save(Ok(())).unwrap();
    assert!(!buf.is_dirty());
    assert_eq!(buf.path, Some("b.txt".to_string()));
    assert_eq!(buf.text(), "wxz");
}

#[test]
fn insert_past_end_is_out_of_bounds() {
    let mut buf = Buffer::from_str(BufferId(0), "abc");
    match buf.insert(4, "x") {
        Err(BufferError::OutOfBounds(i, n)) => {
            assert_eq!(i, 4);
            assert_eq!(n, 3);
        }
        _ => panic!("expected OutOfBounds"),
    }
    assert_eq!(buf.text(), "abc");
    assert!(!buf.is_dirty());
    assert!(!buf.undo());
}

#[test]
fn delete_bad_ranges_are_out_of_bounds() {
    let mut buf = Buffer::from_str(BufferId(0), "abc");
    assert!(matches!(buf.delete(2, 5), Err(BufferError::OutOfBounds(5, 3))));
    assert!(matches!(buf.delete(2, 1), Err(BufferError::OutOfBounds(1, 3))));
    assert_eq!(buf.text(), "abc");
    // An empty range succeeds and records nothing.
    buf.delete(1, 1).unwrap();
    assert!(!buf.is_dirty());
    assert!(!buf.undo());
}

#[test]
fn undo_and_redo_walk_history() {
    let mut buf = Buffer::from_str(BufferId(0), "abc");
    buf.insert(3, "def").unwrap();
    buf.delete(0, 2).unwrap();
    assert_eq!(buf.text(), "cdef");
    assert!(buf.undo());
    assert_eq!(buf.text(), "abcdef");
    assert!(buf.undo());
    assert_eq!(buf.text(), "abc");
    assert!(!buf.undo());
    assert!(buf.redo());
    assert!(buf.redo());
    assert_eq!(buf.text(), "cdef");
    assert!(!buf.redo());
}

#[test]
fn edit_after_undo_drops_redo() {
    let mut buf = Buffer::from_str(BufferId(0), "ab");
    buf.insert(2, "c").unwrap();
    assert!(buf.undo());
    buf.insert(0, "x").unwrap();
    assert!(!buf.redo());
    assert_eq!(buf.text(), "xab");
}

#[test]
fn undo_marks_dirty() {
    let mut buf = Buffer::open(BufferId(0), "f".to_string(), Ok("a".to_string())).unwrap();
    buf.insert(1, "b").unwrap();
    buf.save(Ok(())).unwrap();
    assert!(!buf.is_dirty());
    assert!(buf.undo());
    assert!(buf.is_dirty());
    assert_eq!(buf.text(), "a");
}

#[test]
fn inserting_then_deleting_restores_text() {
    let mut buf = Buffer::from_str(BufferId(0), "héllo");
    buf.insert(1, "öö").unwrap();
    assert_eq!(buf.text(), "hööéllo");
    buf.delete(1, 3).unwrap();
    assert_eq!(buf.text(), "héllo");
    assert_eq!(buf.len_chars(), 5);
}

#[test]
fn lines_break_at_crlf_cr_and_unicode_separators() {
    let buf = Buffer::from_str(BufferId(0), "a\r\nb\rc\u{2028}d");
    assert_eq!(buf.len_lines(), 4);
    assert_eq!(buf.line(0), Some("a\r\n".to_string()));
    assert_eq!(buf.line(1), Some("b\r".to_string()));
    assert_eq!(buf.line(2), Some("c\u{2028}".to_string()));
    assert_eq!(buf.line(3), Some("d".to_string()));
}

#[test]
fn trailing_newline_starts_an_empty_line() {
    let buf = Buffer::from_str(BufferId(0), "a\n");
    assert_eq!(buf.len_lines(), 2);
    assert_eq!(buf.line(1), Some(String::new()));
    let empty = Buffer::empty(BufferId(1));
    assert_eq!(empty.len_lines(), 1);
    assert_eq!(empty.text(), "");
}
