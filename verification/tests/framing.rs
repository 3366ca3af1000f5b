use rfc_cli::framing::{read_message, write_message, Decoded, Frame};
use serde_json::Value;

fn message(buf: &[u8], eof: bool) -> (Frame, usize) {
    match read_message(buf, eof) {
        Decoded::Message(frame, consumed) => (frame, consumed),
        Decoded::NeedMore => panic!("need more"),
        Decoded::End => panic!("end"),
        Decoded::Failed(m) => panic!("failed: {}", m),
    }
}

fn failure(buf: &[u8], eof: bool) -> String {
    match read_message(buf, eof) {
        Decoded::Failed(m) => m,
        _ => panic!("expected a failure"),
    }
}

#[test]
fn read_message_supports_raw_json_and_content_length() {
    let request: Value = serde_json::from_str(r#"{"jsonrpc":"2.0","id":1,"method":"ping"}"#).unwrap();
    let body = serde_json::to_string(&request).unwrap();

    let raw = format!("{}\n", body);
    match message(raw.as_bytes(), false) {
        (Frame::Line(text), consumed) => {
            assert_eq!(serde_json::from_str::<Value>(&text).unwrap(), request);
            assert_eq!(consumed, raw.len());
        }
        _ => panic!("expected a line"),
    }

    let framed = format!("Content-Length: {}\r\n\r\n{}", body.len(), body);
    match message(framed.as_bytes(), true) {
        (Frame::Body(bytes), consumed) => {
            assert_eq!(serde_json::from_slice::<Value>(&bytes).unwrap(), request);
            assert_eq!(consumed, framed.len());
        }
        _ => panic!("expected a body"),
    }
}

#[test]
fn write_message_uses_newline_delimited_json() {
    let message: Value = serde_json::from_str(r#"{"jsonrpc":"2.0","id":1,"result":{}}"#).unwrap();
    let output = write_message(&serde_json::to_vec(&message).unwrap());
    let text = String::from_utf8(output).unwrap();

    assert!(!text.contains("Content-Length"));
    assert!(text.ends_with('\n'));
    assert_eq!(serde_json::from_str::<Value>(text.trim()).unwrap(), message);
}

#[test]
fn written_message_reads_back() {
    let body = br#"{"a":"caf\u00e9 \u2028","b":[1,2]}"#.to_vec();
    let mut stream = write_message(&body);
    stream.extend_from_slice(b"[2]\n");
    match message(&stream, false) {
        (Frame::Line(text), consumed) => {
            assert_eq!(text.as_bytes(), &body[..]);
            assert_eq!(consumed, body.len() + 1);
            match message(&stream[consumed..], false) {
                (Frame::Line(next), _) => assert_eq!(next, "[2]"),
                _ => panic!("expected a line"),
            }
        }
        _ => panic!("expected a line"),
    }
}

#[test]
fn partial_input_waits_for_more() {
    assert!(matches!(read_message(b"", false), Decoded::NeedMore));
    assert!(matches!(read_message(b" \r\n\t", false), Decoded::NeedMore));
    assert!(matches!(read_message(b"{\"a\":1", false), Decoded::NeedMore));
    assert!(matches!(read_message(b"Content-Length: 5\r\n", false), Decoded::NeedMore));
    assert!(matches!(read_message(b"Content-Length: 5\r\n\r\nabc", false), Decoded::NeedMore));
}

#[test]
fn decided_prefix_stays_decided() {
    let full = b"Content-Length: 2\r\n\r\n{}{\"next\":true}\n";
    for cut in 0..full.len() {
        match read_message(&full[..cut], false) {
            Decoded::NeedMore => {}
            Decoded::Message(Frame::Body(b), n) => {
                assert_eq!(b, b"{}".to_vec());
                assert_eq!(n, 23);
            }
            _ => panic!("unexpected decision at {}", cut),
        }
    }
    match message(full, true) {
        (Frame::Body(b), n) => {
            assert_eq!(b, b"{}".to_vec());
            assert_eq!(n, 23);
        }
        _ => panic!("expected a body"),
    }
}

#[test]
fn end_of_stream_ends_or_fails() {
    assert!(matches!(read_message(b"", true), Decoded::End));
    assert!(matches!(read_message(b"\n\n  ", true), Decoded::End));
    assert!(matches!(read_message(b"Content-Length: 5\r\n", true), Decoded::End));
    assert_eq!(
        failure(b"Content-Length: 5\r\n\r\nab", true),
        "Failed to read MCP message body: failed to fill whole buffer"
    );
    match message(b"  {\"x\":1}  ", true) {
        (Frame::Line(text), consumed) => {
            assert_eq!(text, "{\"x\":1}");
            assert_eq!(consumed, 11);
        }
        _ => panic!("expected a line"),
    }
}

#[test]
fn header_errors_are_reported() {
    assert_eq!(failure(b"X-Other: 1\r\n\r\n", false), "Missing Content-Length header");
    assert_eq!(
        failure(b"Content-Length: abc\r\n\r\n", false),
        "Invalid Content-Length value 'abc': invalid digit found in string"
    );
    assert_eq!(
        failure(b"Content-Length:   \r\n\r\n", false),
        "Invalid Content-Length value '': cannot parse integer from empty string"
    );
    assert_eq!(
        failure(b"Content-Length: 99999999999999999999999\r\n", false),
        "Invalid Content-Length value '99999999999999999999999': number too large to fit in target type"
    );
    assert_eq!(
        failure(b"Content-Length: -1\r\n", false),
        "Invalid Content-Length value '-1': invalid digit found in string"
    );
    assert_eq!(
        failure(b"{\xff}\n", false),
        "Failed to read MCP JSON line: stream did not contain valid UTF-8"
    );
    assert_eq!(
        failure(b"X-\xff: 1\r\n", false),
        "Failed to read MCP header line: stream did not contain valid UTF-8"
    );
}

#[test]
fn header_name_ignores_case_and_last_length_wins() {
    match message(b"content-LENGTH: +3\r\nX: y\r\nContent-Length: 2\n\nabcd", false) {
        (Frame::Body(b), consumed) => {
            assert_eq!(b, b"ab".to_vec());
            assert_eq!(consumed, 47);
        }
        _ => panic!("expected a body"),
    }
}
