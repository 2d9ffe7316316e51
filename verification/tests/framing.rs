use rote::lsp::{message_header, parse_usize, route_message, HeaderReader, HeaderStep, Route};

fn chars(s: &str) -> Vec<char> {
    s.chars().collect()
}

fn feed_str(reader: &mut HeaderReader, s: &str) -> Vec<HeaderStep> {
    s.bytes().map(|b| reader.feed(Some(b))).collect()
}

#[test]
fn header_names_the_body_length() {
    assert_eq!(message_header(0), "Content-Length: 0\r\n\r\n");
    assert_eq!(message_header(1234), "Content-Length: 1234\r\n\r\n");
    assert_eq!(message_header(usize::MAX), format!("Content-Length: {}\r\n\r\n", usize::MAX));
}

#[test]
fn reader_reads_back_a_written_header() {
    for n in [0usize, 7, 10, 52, 1000, 65536] {
        let mut reader = HeaderReader::new();
        let steps = feed_str(&mut reader, &message_header(n));
        let (last, before) = steps.split_last().unwrap();
        assert!(before.iter().all(|s| *s == HeaderStep::Continue));
        assert_eq!(*last, HeaderStep::Body(n));
    }
}

#[test]
fn reader_starts_over_after_each_message() {
    let mut reader = HeaderReader::new();
    let steps = feed_str(&mut reader, "Content-Length: 5\r\n\r\n");
    assert_eq!(steps.last(), Some(&HeaderStep::Body(5)));
    // No Content-Length header in the next message: length 0.
    let steps = feed_str(&mut reader, "X-Other: 1\r\n\r\n");
    assert_eq!(steps.last(), Some(&HeaderStep::Body(0)));
}

#[test]
fn reader_handles_bare_newlines_and_other_headers() {
    let mut reader = HeaderReader::new();
    let steps = feed_str(
        &mut reader,
        "Content-Type: application/vscode-jsonrpc\nContent-Length:   42  \n\n",
    );
    assert_eq!(steps.last(), Some(&HeaderStep::Body(42)));
}

#[test]
fn reader_uses_the_last_content_length() {
    let mut reader = HeaderReader::new();
    let steps = feed_str(&mut reader, "Content-Length: 3\r\nContent-Length: 9\r\n\r\n");
    assert_eq!(steps.last(), Some(&HeaderStep::Body(9)));
}

#[test]
fn unparsable_content_length_is_zero() {
    let mut reader = HeaderReader::new();
    let steps = feed_str(&mut reader, "Content-Length: abc\r\n\r\n");
    assert_eq!(steps.last(), Some(&HeaderStep::Body(0)));
    let steps = feed_str(&mut reader, "Content-Length: -4\r\n\r\n");
    assert_eq!(steps.last(), Some(&HeaderStep::Body(0)));
}

#[test]
fn header_name_is_case_sensitive() {
    let mut reader = HeaderReader::new();
    let steps = feed_str(&mut reader, "content-length: 8\r\n\r\n");
    assert_eq!(steps.last(), Some(&HeaderStep::Body(0)));
}

#[test]
fn end_of_stream_closes() {
    let mut reader = HeaderReader::new();
    feed_str(&mut reader, "Content-Len");
    assert_eq!(reader.feed(None), HeaderStep::Closed);
}

#[test]
fn non_utf8_header_line_is_not_a_length() {
    let mut reader = HeaderReader::new();
    for b in [0xffu8, 0xfe, b'\r', b'\n'] {
        assert_eq!(reader.feed(Some(b)), HeaderStep::Continue);
    }
    assert_eq!(reader.feed(Some(b'\n')), HeaderStep::Body(0));
}

#[test]
fn parse_usize_agrees_with_std() {
    for s in ["0", "42", "+7", "007", "", "+", "-1", "1 ", " 1", "1a", "18446744073709551615", "18446744073709551616", "99999999999999999999999"] {
        assert_eq!(parse_usize(&chars(s)), s.parse::<usize>().ok(), "input {:?}", s);
    }
}

#[test]
fn routing_by_id_and_method() {
    assert_eq!(route_message(Some(3), false, false, false), Route::Response { id: 3, is_error: false });
    assert_eq!(route_message(Some(4), false, false, true), Route::Response { id: 4, is_error: true });
    assert_eq!(route_message(Some(5), true, true, false), Route::Notification);
    assert_eq!(route_message(None, true, true, false), Route::Notification);
    assert_eq!(route_message(None, true, false, false), Route::Drop);
    assert_eq!(route_message(None, false, false, false), Route::Drop);
}
