use rote::layout::{
    char_offset_to_layout_cursor, char_width, layout_cursor_to_char_offset, status_line_text, try_layout_cursor_to_char_offset,
    LayoutCursor,
};
use rote::{Editor, Rope};

#[test]
fn char_offsets_to_layout_positions() {
    let rope = Rope::from_str("héllo\nwörld");
    assert_eq!(char_offset_to_layout_cursor(&rope, 0), LayoutCursor { line: 0, index: 0 });
    assert_eq!(char_offset_to_layout_cursor(&rope, 2), LayoutCursor { line: 0, index: 3 });
    assert_eq!(char_offset_to_layout_cursor(&rope, 5), LayoutCursor { line: 0, index: 6 });
    assert_eq!(char_offset_to_layout_cursor(&rope, 8), LayoutCursor { line: 1, index: 3 });
    assert_eq!(char_offset_to_layout_cursor(&rope, 100), LayoutCursor { line: 1, index: 6 });
}

#[test]
fn layout_positions_to_char_offsets() {
    let rope = Rope::from_str("héllo\nwörld");
    assert_eq!(layout_cursor_to_char_offset(&rope, LayoutCursor { line: 1, index: 3 }), 8);
    assert_eq!(layout_cursor_to_char_offset(&rope, LayoutCursor { line: 0, index: 3 }), 2);
    assert_eq!(layout_cursor_to_char_offset(&rope, LayoutCursor { line: 9, index: 0 }), 6);
    assert_eq!(layout_cursor_to_char_offset(&rope, LayoutCursor { line: 1, index: 99 }), 11);
    assert_eq!(layout_cursor_to_char_offset(&rope, LayoutCursor { line: 0, index: 99 }), 6);
}

#[test]
fn layout_round_trip_on_every_offset() {
    let rope = Rope::from_str("a€\r\n\u{1F600}b\n\nend");
    let n = rope.len_chars();
    for pos in 0..=n + 2 {
        let c = char_offset_to_layout_cursor(&rope, pos);
        assert_eq!(layout_cursor_to_char_offset(&rope, c), pos.min(n));
    }
}

#[test]
fn utf8_widths() {
    assert_eq!(char_width('a'), 1);
    assert_eq!(char_width('é'), 2);
    assert_eq!(char_width('€'), 3);
    assert_eq!(char_width('\u{1F600}'), 4);
}

#[test]
fn status_line_shows_name_dirty_and_position() {
    let mut ed = Editor::new();
    assert_eq!(status_line_text(&ed, None), "[no buffer]");
    ed.new_buffer();
    assert_eq!(status_line_text(&ed, None), "[scratch]  \u{2014}  Ln 1, Col 1  \u{2014}  Rote (wgpu + cosmic-text)");
    ed.insert_at_cursor("ab\ncd").unwrap();
    assert_eq!(
        status_line_text(&ed, Some("notes.txt")),
        "notes.txt [+]  \u{2014}  Ln 2, Col 3  \u{2014}  Rote (wgpu + cosmic-text)"
    );
}

#[test]
fn checked_conversion_refuses_positions_inside_a_char() {
    let rope = Rope::from_str("héllo\nwörld");
    assert_eq!(try_layout_cursor_to_char_offset(&rope, LayoutCursor { line: 0, index: 2 }), None);
    assert_eq!(try_layout_cursor_to_char_offset(&rope, LayoutCursor { line: 1, index: 2 }), None);
    assert_eq!(try_layout_cursor_to_char_offset(&rope, LayoutCursor { line: 0, index: 3 }), Some(2));
    assert_eq!(try_layout_cursor_to_char_offset(&rope, LayoutCursor { line: 7, index: 99 }), Some(11));
    assert_eq!(try_layout_cursor_to_char_offset(&Rope::from_str(""), LayoutCursor { line: 0, index: 4 }), Some(0));
}
