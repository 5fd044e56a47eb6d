//! EventSource tests from the web-platform-tests suite.
//! See https://github.com/web-platform-tests/wpt/tree/master/eventsource

use bytes::BytesMut;
use sse_codec::{Error, Event, SSECodec};

struct DecodeIter {
    codec: SSECodec,
    buffer: BytesMut,
}

impl Iterator for DecodeIter {
    type Item = Result<Event, Error>;

    fn next(&mut self) -> Option<Self::Item> {
        match self.codec.decode(&mut self.buffer) {
            Ok(Some(event)) => Some(Ok(event)),
            Ok(None) => None,
            Err(err) => Some(Err(err)),
        }
    }
}

fn decode(input: &[u8]) -> DecodeIter {
    DecodeIter {
        codec: SSECodec::default(),
        buffer: BytesMut::from(input),
    }
}

fn message(event: &str, data: &str) -> Option<Event> {
    Some(Event::Message {
        event: event.into(),
        data: data.into(),
    })
}

/// https://github.com/web-platform-tests/wpt/blob/master/eventsource/event-data.html
#[test]
fn data() {
    let mut input = String::new();
    input.push_str("data:msg\n");
    input.push_str("data:msg\n");
    input.push_str("\n");
    input.push_str(":\n");
    input.push_str("falsefield:msg\n");
    input.push_str("\n");
    input.push_str("falsefield:msg\n");
    input.push_str("Data:data\n");
    input.push_str("\n");
    input.push_str("data\n");
    input.push_str("\n");
    input.push_str("data:end\n");
    input.push_str("\n");
    let mut messages = decode(input.as_bytes());
    assert_eq!(
        messages.next().map(Result::unwrap),
        Some(Event::Message {
            event: "message".into(),
            data: "msg\nmsg".into()
        })
    );
    assert_eq!(
        messages.next().map(Result::unwrap),
        Some(Event::Message {
            event: "message".into(),
            data: "".into()
        })
    );
    assert_eq!(
        messages.next().map(Result::unwrap),
        Some(Event::Message {
            event: "message".into(),
            data: "end".into()
        })
    );
    assert!(messages.next().is_none());
}

/// https://github.com/web-platform-tests/wpt/blob/master/eventsource/format-bom.htm
/// The byte order marker should only be stripped at the very start.
#[test]
fn bom() {
    let mut input = vec![];
    input.extend(b"\xEF\xBB\xBF");
    input.extend(b"data:1\n");
    input.extend(b"\n");
    input.extend(b"\xEF\xBB\xBF");
    input.extend(b"data:2\n");
    input.extend(b"\n");
    input.extend(b"data:3\n");
    input.extend(b"\n");
    let mut messages = decode(&input);
    assert_eq!(
        messages.next().map(Result::unwrap),
        Some(Event::Message {
            event: "message".into(),
            data: "1".into()
        })
    );
    assert_eq!(
        messages.next().map(Result::unwrap),
        Some(Event::Message {
            event: "message".into(),
            data: "3".into()
        })
    );
    assert!(messages.next().is_none());
}

/// https://github.com/web-platform-tests/wpt/blob/master/eventsource/format-bom-2.htm
/// Only _one_ byte order marker should be stripped. This has two, which means one will remain
/// in the first line, therefore making the first `data:1` invalid.
#[test]
fn bom2() {
    let mut input = vec![];
    input.extend(b"\xEF\xBB\xBF");
    input.extend(b"\xEF\xBB\xBF");
    input.extend(b"data:1\n");
    input.extend(b"\n");
    input.extend(b"data:2\n");
    input.extend(b"\n");
    input.extend(b"data:3\n");
    input.extend(b"\n");
    let mut messages = decode(&input);
    assert_eq!(
        messages.next().map(Result::unwrap),
        Some(Event::Message {
            event: "message".into(),
            data: "2".into()
        })
    );
    assert_eq!(
        messages.next().map(Result::unwrap),
        Some(Event::Message {
            event: "message".into(),
            data: "3".into()
        })
    );
    assert!(messages.next().is_none());
}

/// https://github.com/web-platform-tests/wpt/blob/master/eventsource/format-comments.htm
#[test]
fn comments() {
    let longstring = "x".repeat(2049);
    let mut input = String::new();
    input.push_str("data:1\r");
    input.push_str(":\0\n");
    input.push_str(":\r\n");
    input.push_str("data:2\n");
    input.push_str(":");
    input.push_str(&longstring);
    input.push_str("\r");
    input.push_str("data:3\n");
    input.push_str(":data:fail\r");
    input.push_str(":");
    input.push_str(&longstring);
    input.push_str("\n");
    input.push_str("data:4\n\n");
    let mut messages = decode(input.as_bytes());
    assert_eq!(
        messages.next().map(Result::unwrap),
        Some(Event::Message {
            event: "message".into(),
            data: "1\n2\n3\n4".into()
        })
    );
    assert!(messages.next().is_none());
}

/// https://github.com/web-platform-tests/wpt/blob/master/eventsource/format-data-before-final-empty-line.htm
/// The last event ID is reported as soon as its line is read; the data
/// after it never reaches an empty line and is never dispatched.
#[test]
fn data_before_final_empty_line() {
    let input = "retry:1000\ndata:test1\n\nid:test\ndata:test2";
    let mut messages = decode(input.as_bytes());
    assert_eq!(
        messages.next().map(Result::unwrap),
        Some(Event::Retry { retry: 1000 })
    );
    assert_eq!(
        messages.next().map(Result::unwrap),
        Some(Event::Message {
            event: "message".into(),
            data: "test1".into()
        })
    );
    assert_eq!(
        messages.next().map(Result::unwrap),
        Some(Event::LastEventId { id: "test".into() })
    );
    assert!(messages.next().is_none());
    assert_eq!(&messages.buffer[..], b"data:test2");
}

/// https://github.com/web-platform-tests/wpt/blob/master/eventsource/format-field-data.htm
#[test]
fn field_data() {
    let input = "data:\n\ndata\ndata\n\ndata:test\n\n";
    let mut messages = decode(input.as_bytes());
    assert_eq!(
        messages.next().map(Result::unwrap),
        Some(Event::Message {
            event: "message".into(),
            data: "".into()
        })
    );
    assert_eq!(
        messages.next().map(Result::unwrap),
        Some(Event::Message {
            event: "message".into(),
            data: "\n".into()
        })
    );
    assert_eq!(
        messages.next().map(Result::unwrap),
        Some(Event::Message {
            event: "message".into(),
            data: "test".into()
        })
    );
    assert!(messages.next().is_none());
}

/// https://github.com/web-platform-tests/wpt/blob/master/eventsource/format-field-event-empty.htm
#[test]
fn field_event_empty() {
    let input = "event: \ndata:data\n\n";
    let mut messages = decode(input.as_bytes());
    assert_eq!(
        messages.next().map(Result::unwrap),
        Some(Event::Message {
            event: "".into(),
            data: "data".into()
        })
    );
    assert!(messages.next().is_none());
}

/// https://github.com/web-platform-tests/wpt/blob/master/eventsource/format-field-event.htm
#[test]
fn field_event() {
    let input = "event:test\ndata:x\n\ndata:x\n\n";
    let mut messages = decode(input.as_bytes());
    assert_eq!(
        messages.next().map(Result::unwrap),
        Some(Event::Message {
            event: "test".into(),
            data: "x".into()
        })
    );
    assert_eq!(
        messages.next().map(Result::unwrap),
        Some(Event::Message {
            event: "message".into(),
            data: "x".into()
        })
    );
    assert!(messages.next().is_none());
}

/// https://github.com/web-platform-tests/wpt/blob/master/eventsource/format-field-parsing.htm
#[test]
fn field_parsing() {
    let input = "data:\0\ndata:  2\rData:1\ndata\0:2\ndata:1\r\0data:4\nda-ta:3\rdata_5\ndata:3\rdata:\r\n data:32\ndata:4\n\n";
    let mut messages = decode(input.as_bytes());
    assert_eq!(
        messages.next().map(Result::unwrap),
        Some(Event::Message {
            event: "message".into(),
            data: "\0\n 2\n1\n3\n\n4".into()
        })
    );
    assert!(messages.next().is_none());
}

/// https://github.com/web-platform-tests/wpt/blob/master/eventsource/format-field-retry-bogus.htm
#[test]
fn field_retry_bogus() {
    let input = "retry:3000\nretry:1000x\ndata:x\n\n";
    let mut messages = decode(input.as_bytes());
    assert_eq!(
        messages.next().map(Result::unwrap),
        Some(Event::Retry { retry: 3000 })
    );
    assert_eq!(
        messages.next().map(Result::unwrap),
        Some(Event::Message {
            event: "message".into(),
            data: "x".into()
        })
    );
    assert!(messages.next().is_none());
}

/// https://github.com/web-platform-tests/wpt/blob/master/eventsource/format-field-retry-empty.htm
#[test]
fn field_retry_empty() {
    let input = "retry\ndata:test\n\n";
    let mut messages = decode(input.as_bytes());
    assert_eq!(
        messages.next().map(Result::unwrap),
        Some(Event::Message {
            event: "message".into(),
            data: "test".into()
        })
    );
    assert!(messages.next().is_none());
}

/// https://github.com/web-platform-tests/wpt/blob/master/eventsource/format-field-retry.htm
#[test]
fn field_retry() {
    let input = "retry:03000\ndata:x\n\n";
    let mut messages = decode(input.as_bytes());
    assert_eq!(
        messages.next().map(Result::unwrap),
        Some(Event::Retry { retry: 3000 })
    );
    assert_eq!(
        messages.next().map(Result::unwrap),
        Some(Event::Message {
            event: "message".into(),
            data: "x".into()
        })
    );
    assert!(messages.next().is_none());
}

/// https://github.com/web-platform-tests/wpt/blob/master/eventsource/format-field-unknown.htm
#[test]
fn field_unknown() {
    let input =
        "data:test\n data\ndata\nfoobar:xxx\njustsometext\n:thisisacommentyay\ndata:test\n\n";
    let mut messages = decode(input.as_bytes());
    assert_eq!(
        messages.next().map(Result::unwrap),
        Some(Event::Message {
            event: "message".into(),
            data: "test\n\ntest".into()
        })
    );
    assert!(messages.next().is_none());
}

/// https://github.com/web-platform-tests/wpt/blob/master/eventsource/format-leading-space.htm
#[test]
fn leading_space() {
    let input = "data:\ttest\rdata: \ndata:test\n\n";
    let mut messages = decode(input.as_bytes());
    assert_eq!(
        messages.next().map(Result::unwrap),
        Some(Event::Message {
            event: "message".into(),
            data: "\ttest\n\ntest".into()
        })
    );
    assert!(messages.next().is_none());
}

/// https://github.com/web-platform-tests/wpt/blob/master/eventsource/format-newlines.htm
#[test]
fn newlines() {
    let input = "data:test\r\ndata\ndata:test\r\n\r";
    let mut messages = decode(input.as_bytes());
    assert_eq!(
        messages.next().map(Result::unwrap),
        Some(Event::Message {
            event: "message".into(),
            data: "test\n\ntest".into()
        })
    );
    assert!(messages.next().is_none());
}

/// https://github.com/web-platform-tests/wpt/blob/master/eventsource/format-null-character.html
#[test]
fn null_character() {
    let input = "data:\0\n\n\n\n";
    let mut messages = decode(input.as_bytes());
    assert_eq!(
        messages.next().map(Result::unwrap),
        Some(Event::Message {
            event: "message".into(),
            data: "\0".into()
        })
    );
    assert!(messages.next().is_none());
}

/// https://github.com/web-platform-tests/wpt/blob/master/eventsource/format-utf-8.htm
#[test]
fn utf_8() {
    let input = b"data:ok\xE2\x80\xA6\n\n";
    let mut messages = decode(input);
    assert_eq!(
        messages.next().map(Result::unwrap),
        Some(Event::Message {
            event: "message".into(),
            data: "ok\u{2026}".into()
        })
    );
    assert!(messages.next().is_none());
}

#[test]
fn decode_stream_when_fed_by_line() {
    let input: Vec<&str> = vec![":ok", "", "event:message", "id:id1", "data:data1", ""];

    let mut codec = SSECodec::default();
    let mut buffer = BytesMut::new();
    let mut results = Vec::new();
    for line in input {
        buffer.extend_from_slice((line.to_owned() + "\n").as_bytes());
        while let Some(event) = codec.decode(&mut buffer).unwrap() {
            results.push(event);
        }
    }

    assert_eq!(results.len(), 2);
    assert_eq!(results.get(0).unwrap(), &Event::id("id1"));
    assert_eq!(results.get(1).unwrap(), &Event::message("message", "data1"));
    assert_eq!(message("message", "data1"), results.pop());
}
