use sse_codec::{Event, SSECodec};

#[test]
fn simple_event() {
    let mut codec = SSECodec::default();
    let mut event = None;
    let s = "event: add\ndata: test\ndata: test2\n\n";
    for line in s.lines() {
        if let Some(message @ Event::Message { .. }) = codec.parse_line(line) {
            event = Some(message);
            break;
        }
    }
    assert_eq!(
        event,
        Some(Event::Message {
            event: "add".to_string(),
            data: "test\ntest2".to_string(),
        })
    );
}
