//! Writing events out in the wire format.
use vstd::prelude::*;
use vstd::string::*;
use vstd::utf8::*;
use crate::event::{Event, WireEvent};
use crate::lines::{after_first_line, first_line, lemma_after_first_line_shorter, next_line};
use crate::scan::{same_bytes, LF};
use crate::text::{lemma_line_feed_text, lemma_utf8_concat, utf8};

verus! {

/// The digits that write `n` in base ten, without leading zeros.
pub open spec fn decimal_digits(n: nat) -> Seq<u8>
    decreases n,
{
    if n < 10 {
        seq![(0x30 + n) as u8]
    } else {
        decimal_digits(n / 10) + seq![(0x30 + n % 10) as u8]
    }
}

/// One `data` field that carries `line`.
pub open spec fn data_field(line: Seq<u8>) -> Seq<u8> {
    utf8("data: "@) + line + seq![LF]
}

/// One `data` field for each line of `data`, in order.
pub open spec fn data_fields(data: Seq<u8>) -> Seq<u8>
    decreases data.len(),
{
    if data.len() == 0 {
        Seq::empty()
    } else {
        proof {
            lemma_after_first_line_shorter(data);
        }
        data_field(first_line(data)) + data_fields(after_first_line(data))
    }
}

/// The fields that write `event`, each on a line of its own that ends in
/// a line feed. A message names its event type unless that is "message",
/// then gives its data line by line. An empty last event ID is written as
/// the bare field name.
pub open spec fn encode_event(event: WireEvent) -> Seq<u8> {
    match event {
        WireEvent::Message { event, data } => (if event == utf8("message"@) {
            Seq::<u8>::empty()
        } else {
            utf8("event: "@) + event + seq![LF]
        }) + data_fields(data),
        WireEvent::Retry { retry } => utf8("retry: "@) + decimal_digits(retry as nat) + seq![LF],
        WireEvent::LastEventId { id } => if id.len() == 0 {
            utf8("id"@) + seq![LF]
        } else {
            utf8("id: "@) + id + seq![LF]
        },
    }
}

/// An event as a frame of its own: its fields, then the empty line that
/// ends the frame.
pub open spec fn encode_frame(event: WireEvent) -> Seq<u8> {
    encode_event(event) + seq![LF]
}

/// The text of one digit.
fn digit_text(d: u64) -> (text: &'static str)
    requires
        d < 10,
    ensures
        text.spec_bytes() == seq![(0x30 + d) as u8],
{
    let text = if d == 0 {
        "0"
    } else if d == 1 {
        "1"
    } else if d == 2 {
        "2"
    } else if d == 3 {
        "3"
    } else if d == 4 {
        "4"
    } else if d == 5 {
        "5"
    } else if d == 6 {
        "6"
    } else if d == 7 {
        "7"
    } else if d == 8 {
        "8"
    } else {
        "9"
    };
    proof {
        reveal_strlit("0");
        reveal_strlit("1");
        reveal_strlit("2");
        reveal_strlit("3");
        reveal_strlit("4");
        reveal_strlit("5");
        reveal_strlit("6");
        reveal_strlit("7");
        reveal_strlit("8");
        reveal_strlit("9");
        is_ascii_chars_encode_utf8(text@);
        assert(text.spec_bytes() =~= seq![(0x30 + d) as u8]);
    }
    text
}

/// Writes `n` in base ten.
pub fn decimal_text(n: u64) -> (text: String)
    ensures
        utf8(text@) == decimal_digits(n as nat),
    decreases n,
{
    let mut text = if n >= 10 {
        decimal_text(n / 10)
    } else {
        String::new()
    };
    let ghost head = text@;
    let digit = digit_text(n % 10);
    text.append(digit);
    proof {
        lemma_utf8_concat(head, digit@);
        assert(utf8(Seq::<char>::empty()) =~= Seq::<u8>::empty());
        assert(utf8(text@) =~= decimal_digits(n as nat));
    }
    text
}

/// Appends one field to `out`: `label`, the text `value`, a line feed.
fn push_field(out: &mut String, label: &str, value: &str)
    ensures
        utf8(final(out)@) == utf8(old(out)@) + utf8(label@) + value.spec_bytes() + seq![LF],
{
    let ghost before = out@;
    out.append(label);
    out.append(value);
    out.append("\n");
    proof {
        lemma_line_feed_text();
        assert(out@ =~= before + label@ + value@ + "\n"@);
        lemma_utf8_concat(before + label@ + value@, "\n"@);
        lemma_utf8_concat(before + label@, value@);
        lemma_utf8_concat(before, label@);
    }
}

impl Event {
    /// The event in the wire format: one line for each field, each ended
    /// by a line feed, and no empty line after them.
    pub fn to_string(&self) -> (text: String)
        ensures
            utf8(text@) == encode_event(self@),
    {
        let mut out = String::new();
        assert(utf8(out@) =~= Seq::<u8>::empty());
        match self {
            Event::Message { event, data } => {
                if !same_bytes(event.as_str().as_bytes(), "message".as_bytes()) {
                    push_field(&mut out, "event: ", event.as_str());
                }
                let ghost head = utf8(out@);
                let mut rest: &str = data.as_str();
                while rest.as_bytes().len() > 0
                    invariant
                        utf8(out@) + data_fields(rest.spec_bytes()) == head + data_fields(
                            utf8(data@),
                        ),
                    decreases rest.spec_bytes().len(),
                {
                    let ghost written = utf8(out@);
                    let ghost left = rest.spec_bytes();
                    proof {
                        lemma_after_first_line_shorter(left);
                    }
                    let (line, tail) = next_line(rest);
                    push_field(&mut out, "data: ", line);
                    rest = tail;
                    assert(utf8(out@) + data_fields(rest.spec_bytes()) =~= written + data_fields(
                        left,
                    ));
                }
                assert(utf8(out@) =~= head + data_fields(utf8(data@)));
            },
            Event::Retry { retry } => {
                let digits = decimal_text(*retry);
                push_field(&mut out, "retry: ", digits.as_str());
            },
            Event::LastEventId { id } => {
                if id.as_str().as_bytes().len() == 0 {
                    push_field(&mut out, "id", id.as_str());
                } else {
                    push_field(&mut out, "id: ", id.as_str());
                }
            },
        }
        out
    }
}

} // verus!
