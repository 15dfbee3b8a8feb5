use lsp_transport::error::{IoFailure, LengthError, LspError};
use lsp_transport::frame::encode_frame;
use lsp_transport::json::deliver;
use lsp_transport::transport::LspTransport;
use serde_json::{Number, Value};

fn transport_with(bytes: &[u8]) -> LspTransport {
    let mut transport = LspTransport::new();
    transport.feed(bytes);
    transport
}

fn sample_request() -> Value {
    let mut position = serde_json::Map::new();
    position.insert("line".to_string(), Value::Number(Number::from(12)));
    position.insert("character".to_string(), Value::Number(Number::from(4)));
    let mut params = serde_json::Map::new();
    params.insert("position".to_string(), Value::Object(position));
    params.insert("uri".to_string(), Value::String("file:///tmp/é.nix".to_string()));
    params.insert("tags".to_string(), Value::Array(vec![Value::Bool(true), Value::Null]));
    let mut request = serde_json::Map::new();
    request.insert("jsonrpc".to_string(), Value::String("2.0".to_string()));
    request.insert("id".to_string(), Value::Number(Number::from(1)));
    request.insert("method".to_string(), Value::String("textDocument/hover".to_string()));
    request.insert("params".to_string(), Value::Object(params));
    Value::Object(request)
}

fn object_with(key: &str, number: i64) -> Value {
    let mut map = serde_json::Map::new();
    map.insert(key.to_string(), Value::Number(Number::from(number)));
    Value::Object(map)
}

#[test]
fn a_new_transport_is_empty_and_open() {
    let mut transport = LspTransport::new();
    assert!(transport.buffered().is_empty());
    assert!(!transport.is_closed());
    assert!(transport.take_outgoing().is_empty());
    assert!(matches!(transport.receive_raw(), Ok(None)));
}

#[test]
fn round_trip_of_a_value() {
    let value = sample_request();
    let body = serde_json::to_vec(&value).unwrap();
    let mut transport = transport_with(&encode_frame(&body));
    assert_eq!(transport.receive_raw().unwrap(), Some(value));
    assert!(transport.buffered().is_empty());
    assert!(matches!(transport.receive_raw(), Ok(None)));
}

#[test]
fn round_trip_of_every_kind_of_value() {
    let values = vec![
        Value::Null,
        Value::Bool(false),
        Value::Number(Number::from(-17)),
        Value::String("line\r\n\r\nbreaks and \"quotes\"".to_string()),
        Value::Array(vec![]),
        Value::Array(vec![Value::Null, object_with("a", 1)]),
        Value::Object(serde_json::Map::new()),
        sample_request(),
    ];
    for value in values {
        let body = serde_json::to_vec(&value).unwrap();
        let mut transport = transport_with(&encode_frame(&body));
        assert_eq!(transport.receive_raw().unwrap(), Some(value));
        assert!(transport.buffered().is_empty());
    }
}

#[test]
fn round_trip_through_send_raw() {
    let value = sample_request();
    let body = serde_json::to_string(&value).unwrap();
    let message = format!("Content-Length: {}\r\n\r\n{}", body.len(), body);

    let mut sender = LspTransport::new();
    sender.send_raw(message.clone());
    let wire = sender.take_outgoing();
    assert_eq!(wire, message.as_bytes());
    assert_eq!(wire, encode_frame(body.as_bytes()));

    let mut receiver = transport_with(&wire);
    assert_eq!(receiver.receive_raw().unwrap(), Some(value));
}

#[test]
fn the_header_name_is_matched_in_any_case() {
    for name in ["content-length:", "Content-Length:", "CONTENT-LENGTH:"] {
        let bytes = format!("{} 7\r\n\r\n{{\"a\":1}}", name);
        let mut transport = transport_with(bytes.as_bytes());
        assert_eq!(transport.receive_raw().unwrap(), Some(object_with("a", 1)), "{}", name);
        assert!(transport.buffered().is_empty());
    }
}

#[test]
fn a_frame_without_a_header_fails_to_parse() {
    let mut transport = transport_with(b"\r\n{}");
    let error = transport.receive_raw().unwrap_err();
    match error {
        LspError::Json(diagnostic) => {
            assert!(diagnostic.is_eof());
            assert_eq!(
                diagnostic.to_string(),
                "EOF while parsing a value at line 1 column 0"
            );
        }
        other => panic!("not a JSON error: {:?}", other),
    }
    assert_eq!(transport.buffered(), b"{}");
}

#[test]
fn a_frame_without_a_header_fails_whatever_follows() {
    for rest in [&b""[..], b"null", b"{\"a\":1}", b"\r\n", b"Content-Length: 2\r\n\r\n{}"] {
        let mut bytes = b"\r\n".to_vec();
        bytes.extend_from_slice(rest);
        let mut transport = transport_with(&bytes);
        assert!(matches!(transport.receive_raw(), Err(LspError::Json(_))));
        assert_eq!(transport.buffered(), rest);
    }
}

#[test]
fn the_body_is_exactly_as_long_as_declared() {
    let mut transport = transport_with(b"Content-Length: 5\r\n\r\n{\"a\":1}");
    let error = transport.receive_raw().unwrap_err();
    match error {
        LspError::Json(diagnostic) => assert!(diagnostic.is_eof()),
        other => panic!("not a JSON error: {:?}", other),
    }
    assert_eq!(transport.buffered(), b"1}");
}

#[test]
fn a_json_error_leaves_the_next_frame_readable() {
    let mut bytes = encode_frame(b"{oops}");
    bytes.extend_from_slice(&encode_frame(b"{\"ok\":1}"));
    let mut transport = transport_with(&bytes);
    match transport.receive_raw() {
        Err(LspError::Json(diagnostic)) => assert!(diagnostic.is_syntax()),
        other => panic!("not a JSON error: {:?}", other),
    }
    assert_eq!(transport.receive_raw().unwrap(), Some(object_with("ok", 1)));
}

#[test]
fn trailing_bytes_in_the_body_are_a_json_error() {
    let mut transport = transport_with(&encode_frame(b"{} {}"));
    assert!(matches!(transport.receive_raw(), Err(LspError::Json(_))));
    assert!(transport.buffered().is_empty());
}

#[test]
fn a_premature_end_is_an_io_error() {
    let mut transport = transport_with(b"Content-Length: 10\r\n\r\n{\"a");
    assert!(matches!(transport.receive_raw(), Ok(None)));
    assert_eq!(transport.buffered(), b"Content-Length: 10\r\n\r\n{\"a");
    transport.close();
    assert!(transport.is_closed());
    assert!(matches!(transport.receive_raw(), Err(LspError::Io(IoFailure::EndInBody))));
    assert!(transport.buffered().is_empty());
}

#[test]
fn partial_data_is_never_parsed() {
    // The three bytes that arrived are a JSON value of their own.
    let mut transport = transport_with(b"Content-Length: 10\r\n\r\n123");
    transport.close();
    assert!(matches!(transport.receive_raw(), Err(LspError::Io(IoFailure::EndInBody))));
}

#[test]
fn an_end_in_the_header_block_is_an_io_error() {
    let mut transport = transport_with(b"Content-Length: 2\r\n");
    assert!(matches!(transport.receive_raw(), Ok(None)));
    transport.close();
    assert!(matches!(transport.receive_raw(), Err(LspError::Io(IoFailure::EndInHeaders))));
    assert!(transport.buffered().is_empty());
}

#[test]
fn an_end_between_frames_is_an_io_error() {
    let mut transport = transport_with(&encode_frame(b"1"));
    transport.close();
    assert_eq!(transport.receive_raw().unwrap(), Some(Value::Number(Number::from(1))));
    assert!(matches!(transport.receive_raw(), Err(LspError::Io(IoFailure::EndInHeaders))));
    assert!(matches!(transport.receive_raw(), Err(LspError::Io(IoFailure::EndInHeaders))));
}

#[test]
fn back_to_back_frames_are_independent() {
    let first = object_with("first", 1);
    let second = Value::Array(vec![Value::String("second".to_string())]);
    let mut bytes = encode_frame(&serde_json::to_vec(&first).unwrap());
    let second_frame = encode_frame(&serde_json::to_vec(&second).unwrap());
    bytes.extend_from_slice(&second_frame);
    let mut transport = transport_with(&bytes);
    assert_eq!(transport.receive_raw().unwrap(), Some(first));
    assert_eq!(transport.buffered(), second_frame.as_slice());
    assert_eq!(transport.receive_raw().unwrap(), Some(second));
    assert!(transport.buffered().is_empty());
    assert!(matches!(transport.receive_raw(), Ok(None)));
}

#[test]
fn an_invalid_length_is_a_protocol_error() {
    let mut transport = transport_with(b"Content-Length: abc\r\n\r\n");
    match transport.receive_raw() {
        Err(LspError::Protocol(reason)) => {
            assert_eq!(reason, LengthError::InvalidDigit);
            assert_eq!(reason.message(), "Invalid Content-Length: invalid digit found in string");
        }
        other => panic!("not a protocol error: {:?}", other),
    }
    // The bad line is gone; the rest of the stream is out of step.
    assert_eq!(transport.buffered(), b"\r\n");
}

#[test]
fn every_length_error_reaches_the_caller() {
    let cases: [(&[u8], LengthError); 3] = [
        (b"Content-Length: \r\n\r\n", LengthError::Empty),
        (b"Content-Length: 1 2\r\n\r\n", LengthError::InvalidDigit),
        (b"Content-Length: 340282366920938463463374607431768211456\r\n\r\n", LengthError::Overflow),
    ];
    for (bytes, expected) in cases {
        let mut transport = transport_with(bytes);
        match transport.receive_raw() {
            Err(LspError::Protocol(reason)) => assert_eq!(reason, expected),
            other => panic!("not a protocol error: {:?}", other),
        }
    }
}

#[test]
fn a_bare_line_feed_does_not_end_the_header_block() {
    let mut transport = transport_with(b"Content-Length: 2\r\n\n{}");
    assert!(matches!(transport.receive_raw(), Ok(None)));
    // The block ends only with the strict empty line, and the body follows it.
    transport.feed(b"\r\n\r\n[]");
    assert_eq!(transport.receive_raw().unwrap(), Some(Value::Array(vec![])));
    assert!(transport.buffered().is_empty());
}

#[test]
fn unknown_headers_are_skipped() {
    let mut transport = transport_with(
        b"Content-Type: application/vscode-jsonrpc; charset=utf-8\r\nContent-Length: 4\r\n\r\ntrue",
    );
    assert_eq!(transport.receive_raw().unwrap(), Some(Value::Bool(true)));
}

#[test]
fn a_message_may_arrive_byte_by_byte() {
    let value = sample_request();
    let wire = encode_frame(&serde_json::to_vec(&value).unwrap());
    let mut transport = LspTransport::new();
    for (at, byte) in wire.iter().enumerate() {
        assert!(matches!(transport.receive_raw(), Ok(None)), "after {} bytes", at);
        transport.feed(&[*byte]);
    }
    assert_eq!(transport.receive_raw().unwrap(), Some(value));
}

#[test]
fn messages_may_arrive_in_any_cut() {
    let first = object_with("a", 1);
    let second = object_with("b", 2);
    let mut wire = encode_frame(&serde_json::to_vec(&first).unwrap());
    wire.extend_from_slice(&encode_frame(&serde_json::to_vec(&second).unwrap()));
    for cut in 0..=wire.len() {
        let mut transport = LspTransport::new();
        let mut values = Vec::new();
        for chunk in [&wire[..cut], &wire[cut..]] {
            transport.feed(chunk);
            while let Some(value) = transport.receive_raw().unwrap() {
                values.push(value);
            }
        }
        assert_eq!(values, vec![first.clone(), second.clone()], "cut at {}", cut);
        assert!(transport.buffered().is_empty());
    }
}

#[test]
fn send_raw_queues_the_message_as_it_is() {
    let mut transport = LspTransport::new();
    transport.send_raw("Content-Length: 2\r\n\r\n{}".to_string());
    transport.send_raw("no framing at all, é".to_string());
    assert_eq!(
        transport.take_outgoing(),
        "Content-Length: 2\r\n\r\n{}no framing at all, é".as_bytes()
    );
    assert!(transport.take_outgoing().is_empty());
    transport.send_raw(String::new());
    assert!(transport.take_outgoing().is_empty());
}

#[test]
fn sending_and_receiving_do_not_touch_each_other() {
    let mut transport = transport_with(b"Content-Length: 4\r\n\r\nnull");
    transport.send_raw("ping".to_string());
    assert_eq!(transport.buffered(), b"Content-Length: 4\r\n\r\nnull");
    assert_eq!(transport.receive_raw().unwrap(), Some(Value::Null));
    assert_eq!(transport.take_outgoing(), b"ping");
    assert!(!transport.is_closed());
}

#[test]
fn feed_appends_behind_what_is_pending() {
    let mut transport = LspTransport::new();
    transport.feed(b"Content-");
    transport.feed(b"");
    transport.feed(b"Length");
    assert_eq!(transport.buffered(), b"Content-Length");
}

#[test]
fn deliver_wraps_the_parser_result() {
    let parsed = serde_json::from_slice::<Value>(b"[1]");
    assert_eq!(
        deliver(parsed).unwrap(),
        Some(Value::Array(vec![Value::Number(Number::from(1))]))
    );
    let failed = serde_json::from_slice::<Value>(b"[1");
    match deliver(failed) {
        Err(LspError::Json(diagnostic)) => {
            assert!(diagnostic.is_eof());
            assert_eq!(diagnostic.line(), 1);
            assert_eq!(diagnostic.column(), 2);
        }
        other => panic!("not a JSON error: {:?}", other),
    }
}

#[test]
fn a_json_error_converts_into_a_transport_error() {
    let failed = serde_json::from_slice::<Value>(b"tru").unwrap_err();
    let text = failed.to_string();
    match LspError::from(failed) {
        LspError::Json(diagnostic) => assert_eq!(diagnostic.to_string(), text),
        other => panic!("not a JSON error: {:?}", other),
    }
}
