//! The rules of the wire format, stated over bytes: how a line is parted
//! into a field, what each field does to the pending buffers, and what a
//! dispatch yields.
use vstd::prelude::*;
use crate::event::WireEvent;
use vstd::utf8::valid_utf8;
use crate::lines::{after_first_line, first_line, lemma_after_first_line_shorter};
use crate::scan::{first_of, lemma_first_of, COLON, CR, LF, SPACE};
use crate::text::{starts_with_bom, utf8};

verus! {

/// What a line can make the decoder hand out.
pub enum Yield {
    /// An event.
    Event(WireEvent),
    /// The report that the line is not well-formed UTF-8.
    Invalid,
}

/// The buffers and marks that a decoder keeps between lines.
pub struct Pending {
    /// Whether the first line has been looked at for a byte-order mark.
    pub processed_bom: bool,
    /// Whether the last line ended in a carriage return whose line feed
    /// may still follow.
    pub last_was_cr: bool,
    /// The last event ID that waits to be reported.
    pub id: Option<Seq<u8>>,
    /// The event type named since the last dispatch.
    pub event: Option<Seq<u8>>,
    /// The data lines since the last dispatch, a line feed after each.
    pub data: Seq<u8>,
}

/// `v` without one leading space, if it has one.
pub open spec fn strip_space(v: Seq<u8>) -> Seq<u8> {
    if v.len() > 0 && v[0] == SPACE {
        v.skip(1)
    } else {
        v
    }
}

/// The name of the field on `line`: what stands before the first colon,
/// or the whole line if it has none.
pub open spec fn field_name(line: Seq<u8>) -> Seq<u8> {
    match first_of(line, COLON, COLON) {
        Some(i) => line.take(i),
        None => line,
    }
}

/// The value of the field on `line`: what follows the first colon, less
/// one leading space; `None` if the line has no colon.
pub open spec fn field_value(line: Seq<u8>) -> Option<Seq<u8>> {
    match first_of(line, COLON, COLON) {
        Some(i) => Some(strip_space(line.skip(i + 1))),
        None => None,
    }
}

/// Whether `b` is an ASCII digit.
pub open spec fn is_digit(b: u8) -> bool {
    0x30 <= b <= 0x39
}

/// Whether `v` is made of ASCII digits alone.
pub open spec fn all_digits(v: Seq<u8>) -> bool {
    forall|i: int| 0 <= i < v.len() ==> is_digit(#[trigger] v[i])
}

/// The number that the digits `v` write in base ten.
pub open spec fn decimal_value(v: Seq<u8>) -> nat
    decreases v.len(),
{
    if v.len() == 0 {
        0
    } else {
        decimal_value(v.drop_last()) * 10 + (v.last() - 0x30) as nat
    }
}

/// The reconnection time that a `retry` field with this value sets: the
/// value must be one digit or more, nothing else, and fit in 64 bits.
pub open spec fn retry_of(value: Option<Seq<u8>>) -> Option<u64> {
    match value {
        Some(v) => if v.len() > 0 && all_digits(v) && decimal_value(v) <= u64::MAX {
            Some(decimal_value(v) as u64)
        } else {
            None
        },
        None => None,
    }
}

/// Whether the byte zero stands in `v`.
pub open spec fn has_nul(v: Seq<u8>) -> bool {
    exists|i: int| 0 <= i < v.len() && #[trigger] v[i] == 0
}

/// `data` without its last byte, if that is a line feed.
pub open spec fn trim_line_feed(data: Seq<u8>) -> Seq<u8> {
    if data.len() > 0 && data.last() == LF {
        data.drop_last()
    } else {
        data
    }
}

/// `v`, or the empty text where there is none.
pub open spec fn or_empty(v: Option<Seq<u8>>) -> Seq<u8> {
    match v {
        Some(v) => v,
        None => Seq::empty(),
    }
}

impl Pending {
    /// The state of a decoder that has seen nothing.
    pub open spec fn fresh() -> Pending {
        Pending {
            processed_bom: false,
            last_was_cr: false,
            id: None,
            event: None,
            data: Seq::empty(),
        }
    }

    /// The data buffer is empty or ends in the line feed that follows
    /// each data line.
    pub open spec fn wf(self) -> bool {
        self.data.len() > 0 ==> self.data.last() == LF
    }

    /// What a dispatch yields, and the buffers after it. A pending ID is
    /// reported first and alone; otherwise empty data yields nothing and
    /// forgets the event type; otherwise the message is yielded and both
    /// buffers are emptied.
    pub open spec fn take_message(self) -> (Pending, Option<WireEvent>) {
        match self.id {
            Some(id) => (Pending { id: None, ..self }, Some(WireEvent::LastEventId { id })),
            None => if self.data.len() == 0 {
                (Pending { event: None, ..self }, None)
            } else {
                (
                    Pending { event: None, data: Seq::empty(), ..self },
                    Some(
                        WireEvent::Message {
                            event: match self.event {
                                Some(name) => name,
                                None => utf8("message"@),
                            },
                            data: trim_line_feed(self.data),
                        },
                    ),
                )
            },
        }
    }

    /// What one line, already without its terminator and byte-order mark,
    /// does to the buffers, and the event it yields.
    pub open spec fn parse_line(self, line: Seq<u8>) -> (Pending, Option<WireEvent>) {
        let name = field_name(line);
        let value = field_value(line);
        if name == utf8("retry"@) {
            match retry_of(value) {
                Some(retry) => (self, Some(WireEvent::Retry { retry })),
                None => (self, None),
            }
        } else if name == utf8("event"@) {
            (Pending { event: Some(or_empty(value)), ..self }, None)
        } else if name == utf8("data"@) {
            (Pending { data: self.data + or_empty(value) + seq![LF], ..self }, None)
        } else if name == utf8("id"@) {
            match value {
                Some(id) => if has_nul(id) {
                    (self, None)
                } else {
                    (Pending { id: Some(id), ..self }).take_message()
                },
                None => (self, None),
            }
        } else if name.len() == 0 && value is None {
            self.take_message()
        } else {
            (self, None)
        }
    }

    /// What one line does, as the splitter hands it over: its bytes and
    /// the byte that ended it. A lone line feed right after a line that
    /// ended in a carriage return is the rest of that terminator and is
    /// swallowed. Any other line sets the carriage-return mark anew. One
    /// that is not UTF-8 is reported and changes nothing else. The first
    /// line that is loses one leading byte-order mark; then the line is
    /// parsed as a field.
    pub open spec fn feed_line(self, line: Seq<u8>, terminator: u8) -> (Pending, Option<Yield>) {
        if line.len() == 0 && terminator == LF && self.last_was_cr {
            (Pending { last_was_cr: false, ..self }, None)
        } else {
            let marked = Pending { last_was_cr: terminator == CR, ..self };
            if !valid_utf8(line) {
                (marked, Some(Yield::Invalid))
            } else {
                let text = if !marked.processed_bom && starts_with_bom(line) {
                    line.skip(3)
                } else {
                    line
                };
                let (after, event) = (Pending { processed_bom: true, ..marked }).parse_line(text);
                (
                    after,
                    match event {
                        Some(e) => Some(Yield::Event(e)),
                        None => None,
                    },
                )
            }
        }
    }

    /// One call of the decoder on the bytes buffered so far: lines are
    /// taken off the front, each with its terminator, until one yields
    /// something or no whole line is left. The result is the state after,
    /// the bytes that stay buffered, and what was yielded.
    pub open spec fn decode(self, buf: Seq<u8>) -> (Pending, Seq<u8>, Option<Yield>)
        decreases buf.len(),
    {
        match first_of(buf, CR, LF) {
            Some(pos) => {
                proof {
                    lemma_first_of(buf, CR, LF);
                }
                let (next, got) = self.feed_line(buf.take(pos), buf[pos]);
                match got {
                    Some(y) => (next, buf.skip(pos + 1), Some(y)),
                    None => next.decode(buf.skip(pos + 1)),
                }
            },
            None => (self, buf, None),
        }
    }

    /// The first message that the lines of `text` dispatch when they are
    /// parsed in order, starting from these buffers. Other events on the
    /// way are passed over.
    pub open spec fn first_message(self, text: Seq<u8>) -> Option<WireEvent>
        decreases text.len(),
    {
        if text.len() == 0 {
            None
        } else {
            proof {
                lemma_after_first_line_shorter(text);
            }
            let (next, out) = self.parse_line(first_line(text));
            match out {
                Some(WireEvent::Message { event, data }) => out,
                _ => next.first_message(after_first_line(text)),
            }
        }
    }
}

} // verus!
