use http_inspect::reader::{Action, Phase, RequestError, RequestReader};
use http_inspect::report::{layout_console, response};

fn feed_all(lines: &[&str]) -> (RequestReader, Vec<Result<Action, RequestError>>) {
    let mut reader = RequestReader::new();
    let mut actions = Vec::new();
    for line in lines {
        let r = reader.feed_line(line);
        actions.push(r);
        if r != Ok(Action::ReadLine) {
            break;
        }
    }
    (reader, actions)
}

#[test]
fn get_request_shows_first_line() {
    let (reader, actions) = feed_all(&["GET / HTTP/1.1\r\n", "Host: x\r\n", "\r\n"]);
    assert_eq!(actions.last(), Some(&Ok(Action::Respond)));
    assert_eq!(reader.phase(), Phase::Complete);
    assert_eq!(reader.render(false), "Request: GET / HTTP/1.1\n");
    assert_eq!(response(), b"HTTP/1.1 200 OK\r\n\r\n".to_vec());
}

#[test]
fn post_request_shows_body() {
    let (mut reader, actions) =
        feed_all(&["POST /a HTTP/1.1\r\n", "Content-Length: 5\r\n", "\r\n"]);
    assert_eq!(actions.last(), Some(&Ok(Action::ReadBody(5))));
    assert_eq!(reader.phase(), Phase::Body);
    reader.feed_body(b"hello".to_vec());
    assert_eq!(reader.phase(), Phase::Complete);
    assert_eq!(reader.body(), &b"hello".to_vec());
    assert_eq!(reader.render(false), "Request: POST /a HTTP/1.1\nBody:\nhello\n\n");
    assert_eq!(response(), b"HTTP/1.1 200 OK\r\n\r\n".to_vec());
}

#[test]
fn blank_line_alone_is_empty_request() {
    let (reader, actions) = feed_all(&["\r\n"]);
    assert_eq!(actions, vec![Ok(Action::Respond)]);
    assert!(reader.is_empty_request());
    assert_eq!(reader.render(false), "<empty request>\n");
    assert_eq!(reader.render(true), "<empty request>\n");
    assert_eq!(response(), b"HTTP/1.1 200 OK\r\n\r\n".to_vec());
}

#[test]
fn end_of_stream_is_empty_request() {
    let (reader, actions) = feed_all(&[""]);
    assert_eq!(actions, vec![Ok(Action::Respond)]);
    assert!(reader.is_empty_request());
}

#[test]
fn unreadable_length_fails() {
    let (reader, actions) = feed_all(&["POST / HTTP/1.1\r\n", "Content-Length: abc\r\n", "\r\n"]);
    assert_eq!(actions.last(), Some(&Err(RequestError::MalformedHeader)));
    assert_eq!(reader.phase(), Phase::Failed);
}

#[test]
fn negative_length_fails() {
    let (_, actions) = feed_all(&["POST / HTTP/1.1\r\n", "Content-Length: -1\r\n"]);
    assert_eq!(actions.last(), Some(&Err(RequestError::MalformedHeader)));
}

#[test]
fn length_needs_space_and_digits() {
    let (_, actions) = feed_all(&["POST / HTTP/1.1\r\n", "content-length: \r\n"]);
    // The trimmed line is `content-length:`, which lacks the space of the prefix.
    assert_eq!(actions.last(), Some(&Ok(Action::ReadLine)));
    let (_, actions) = feed_all(&["POST / HTTP/1.1\r\n", "content-length: +\r\n"]);
    assert_eq!(actions.last(), Some(&Err(RequestError::MalformedHeader)));
}

#[test]
fn overflowing_length_fails() {
    let (_, actions) =
        feed_all(&["POST / HTTP/1.1\r\n", "Content-Length: 99999999999999999999999\r\n"]);
    assert_eq!(actions.last(), Some(&Err(RequestError::MalformedHeader)));
}

#[test]
fn plus_sign_and_leading_zeros_are_read() {
    let (reader, _) = feed_all(&["POST / HTTP/1.1\r\n", "Content-Length: +007\r\n"]);
    assert_eq!(reader.content_length(), 7);
}

#[test]
fn largest_length_is_read() {
    let line = format!("Content-Length: {}\r\n", usize::MAX);
    let (reader, actions) = feed_all(&["POST / HTTP/1.1\r\n", &line]);
    assert_eq!(actions.last(), Some(&Ok(Action::ReadLine)));
    assert_eq!(reader.content_length(), usize::MAX);
}

#[test]
fn no_length_means_no_body() {
    let (reader, actions) =
        feed_all(&["GET /x HTTP/1.1\r\n", "Host: a\r\n", "Accept: */*\r\n", "\r\n"]);
    assert_eq!(actions.last(), Some(&Ok(Action::Respond)));
    assert_eq!(reader.content_length(), 0);
    assert!(!reader.render(false).contains("Body:"));
    assert!(!reader.render(true).contains("Body:"));
}

#[test]
fn zero_length_means_no_body() {
    let (reader, actions) = feed_all(&["POST / HTTP/1.1\r\n", "Content-Length: 0\r\n", "\r\n"]);
    assert_eq!(actions.last(), Some(&Ok(Action::Respond)));
    assert_eq!(reader.render(false), "Request: POST / HTTP/1.1\n");
}

#[test]
fn length_found_wherever_it_stands() {
    let (first, a) = feed_all(&["Content-Length: 3\r\n", "POST / HTTP/1.1\r\n", "Host: h\r\n", "\r\n"]);
    let (last, b) = feed_all(&["POST / HTTP/1.1\r\n", "Host: h\r\n", "Content-Length: 3\r\n", "\r\n"]);
    assert_eq!(a.last(), Some(&Ok(Action::ReadBody(3))));
    assert_eq!(b.last(), Some(&Ok(Action::ReadBody(3))));
    assert_eq!(first.content_length(), last.content_length());
}

#[test]
fn last_length_wins() {
    let (reader, actions) = feed_all(&[
        "POST / HTTP/1.1\r\n",
        "Content-Length: 3\r\n",
        "Content-Length: 8\r\n",
        "\r\n",
    ]);
    assert_eq!(actions.last(), Some(&Ok(Action::ReadBody(8))));
    assert_eq!(reader.lines().len(), 3);
}

#[test]
fn length_header_in_any_case() {
    for name in ["Content-Length", "CONTENT-LENGTH", "content-length", "cOnTeNt-LeNgTh"] {
        let line = format!("{}: 4\r\n", name);
        let (_, actions) = feed_all(&["PUT / HTTP/1.1\r\n", &line, "\r\n"]);
        assert_eq!(actions.last(), Some(&Ok(Action::ReadBody(4))));
    }
}

#[test]
fn length_without_space_is_not_a_length() {
    let (reader, actions) = feed_all(&["POST / HTTP/1.1\r\n", "Content-Length:5\r\n", "\r\n"]);
    assert_eq!(actions.last(), Some(&Ok(Action::Respond)));
    assert_eq!(reader.content_length(), 0);
}

#[test]
fn length_value_ends_at_next_colon() {
    let (reader, _) = feed_all(&["POST / HTTP/1.1\r\n", "Content-Length: 5:6\r\n"]);
    assert_eq!(reader.content_length(), 5);
}

#[test]
fn lines_are_trimmed_and_kept_in_order() {
    let (reader, _) = feed_all(&[
        "  GET / HTTP/1.1 \r\n",
        "\tB: 2\n",
        "\u{3000}A: 1\u{a0}\r\n",
        "\r\n",
    ]);
    let lines: Vec<&str> = reader.lines().iter().map(|s| s.as_str()).collect();
    assert_eq!(lines, vec!["GET / HTTP/1.1", "B: 2", "A: 1"]);
}

#[test]
fn white_space_only_line_ends_headers() {
    let (_, actions) = feed_all(&["GET / HTTP/1.1\r\n", " \t \r\n", "Host: x\r\n"]);
    assert_eq!(actions.last(), Some(&Ok(Action::Respond)));
    assert_eq!(actions.len(), 2);
}

#[test]
fn verbose_shows_every_line_in_order() {
    let (reader, _) = feed_all(&["GET / HTTP/1.1\r\n", "Host: x\r\n", "\r\n"]);
    assert_eq!(
        reader.render(true),
        "Request: [\n    \"GET / HTTP/1.1\",\n    \"Host: x\",\n]\n\n"
    );
}

#[test]
fn verbose_escapes_quotes() {
    let (reader, _) = feed_all(&["GET /\"q\" HTTP/1.1\r\n", "\r\n"]);
    assert_eq!(reader.render(true), "Request: [\n    \"GET /\\\"q\\\" HTTP/1.1\",\n]\n\n");
}

#[test]
fn verbose_shows_body_too() {
    let (mut reader, _) = feed_all(&["POST /a HTTP/1.1\r\n", "Content-Length: 2\r\n", "\r\n"]);
    reader.feed_body(b"ok".to_vec());
    assert_eq!(
        reader.render(true),
        "Request: [\n    \"POST /a HTTP/1.1\",\n    \"Content-Length: 2\",\n]\n\nBody:\nok\n\n"
    );
}

#[test]
fn invalid_body_bytes_are_replaced() {
    let (mut reader, _) = feed_all(&["POST / HTTP/1.1\r\n", "Content-Length: 3\r\n", "\r\n"]);
    reader.feed_body(vec![0x66, 0xff, 0x67]);
    assert_eq!(reader.render(false), "Request: POST / HTTP/1.1\nBody:\nf\u{fffd}g\n\n");
}

#[test]
fn body_in_utf8_is_shown_as_is() {
    let (mut reader, _) = feed_all(&["POST / HTTP/1.1\r\n", "Content-Length: 2\r\n", "\r\n"]);
    reader.feed_body("é".as_bytes().to_vec());
    assert_eq!(reader.render(false), "Request: POST / HTTP/1.1\nBody:\né\n\n");
}

#[test]
fn layout_places_quoted_lines_and_body() {
    let lines = vec!["GET / HTTP/1.1".to_string(), "Host: x".to_string()];
    let quoted = vec!["<a>".to_string(), "<b>".to_string()];
    assert_eq!(
        layout_console(&lines, &quoted, true, Some("hi")),
        "Request: [\n    <a>,\n    <b>,\n]\n\nBody:\nhi\n\n"
    );
    assert_eq!(
        layout_console(&lines, &quoted, false, None),
        "Request: GET / HTTP/1.1\n"
    );
    assert_eq!(layout_console(&vec![], &vec![], false, None), "<empty request>\n");
}
