//! The decoder's state and what each line does to it.
use vstd::prelude::*;
use vstd::string::*;
use bytes::BytesMut;
use crate::buffer::contents;
use crate::error::Error;
use crate::event::{Event, WireEvent};
use crate::format::encode_frame;
use crate::grammar::{field_name, field_value, strip_space, trim_line_feed, Pending, Yield};
use crate::lines::{lemma_after_first_line_shorter, next_line};
use crate::number::parse_decimal;
use crate::scan::{
    find_byte, lemma_first_of, lemma_first_of_is, lemma_first_of_none, same_bytes, COLON, CR, LF,
    SPACE,
};
use crate::text::{lemma_line_feed_text, lemma_utf8_concat, skip_first_char, split_before, utf8};

verus! {

/// Encoder/decoder for server-sent event streams.
#[derive(Debug, Clone)]
pub struct SSECodec {
    /// Have we processed the optional Byte Order Marker on the first line?
    pub(crate) processed_bom: bool,
    /// Was the last character of the previous line a \r?
    pub(crate) last_was_cr: bool,
    /// The _last event ID_ buffer.
    pub(crate) id: Option<String>,
    /// The _event type_ buffer.
    pub(crate) event: Option<String>,
    /// The _data_ buffer.
    pub(crate) data: String,
}

/// The bytes of a text that may be absent.
pub open spec fn utf8_of(text: Option<String>) -> Option<Seq<u8>> {
    match text {
        Some(s) => Some(utf8(s@)),
        None => None,
    }
}

/// What the wire knows of an event that may be absent.
pub open spec fn wire(event: Option<Event>) -> Option<WireEvent> {
    match event {
        Some(e) => Some(e@),
        None => None,
    }
}

/// What one call of the decoder handed back, as the grammar names it.
pub open spec fn yielded(res: Result<Option<Event>, Error>) -> Option<Yield> {
    match res {
        Ok(Some(e)) => Some(Yield::Event(e@)),
        Ok(None) => None,
        Err(_) => Some(Yield::Invalid),
    }
}

impl View for SSECodec {
    type V = Pending;

    closed spec fn view(&self) -> Pending {
        Pending {
            processed_bom: self.processed_bom,
            last_was_cr: self.last_was_cr,
            id: utf8_of(self.id),
            event: utf8_of(self.event),
            data: utf8(self.data@),
        }
    }
}

impl Default for SSECodec {
    /// A codec that has seen nothing.
    fn default() -> (codec: Self)
        ensures
            codec@ == Pending::fresh(),
    {
        SSECodec {
            processed_bom: false,
            last_was_cr: false,
            id: None,
            event: None,
            data: String::new(),
        }
    }
}

/// Chop off a leading space (code point 0x20) from a string slice.
pub fn strip_leading_space(input: &str) -> (rest: &str)
    ensures
        rest.spec_bytes() == strip_space(input.spec_bytes()),
{
    let bytes = input.as_bytes();
    if bytes.len() > 0 && bytes[0] == SPACE {
        skip_first_char(input, 1)
    } else {
        input
    }
}

/// `s` without its last character, if that is a line feed.
fn without_line_feed(s: &str) -> (rest: &str)
    ensures
        rest.spec_bytes() == trim_line_feed(s.spec_bytes()),
{
    let bytes = s.as_bytes();
    let n = bytes.len();
    if n > 0 && bytes[n - 1] == LF {
        split_before(s, n - 1).0
    } else {
        s
    }
}

impl SSECodec {
    /// Dispatches what is pending. A pending last event ID is reported
    /// first and alone, and leaves the other buffers as they are. Without
    /// one, empty data yields nothing and forgets the event type; else the
    /// message is yielded, its data less the one trailing line feed, and
    /// both buffers are emptied.
    pub fn take_message(&mut self) -> (out: Option<Event>)
        ensures
            final(self)@ == old(self)@.take_message().0,
            wire(out) == old(self)@.take_message().1,
    {
        let pending_id = self.id.take();
        match pending_id {
            Some(id) => Some(Event::LastEventId { id }),
            None => {
                if self.data.as_str().as_bytes().len() == 0 {
                    self.event = None;
                    None
                } else {
                    let named = self.event.take();
                    let event = match named {
                        Some(name) => name,
                        None => "message".to_owned(),
                    };
                    let data = without_line_feed(self.data.as_str()).to_owned();
                    self.data = String::new();
                    Some(Event::Message { event, data })
                }
            },
        }
    }

    /// Takes in one line, without its terminator. A `retry` field with a
    /// number yields the new reconnection time at once; `event` and `data`
    /// fields fill the buffers; an `id` field without a zero byte, and an
    /// empty line, dispatch; every other line is passed over.
    pub fn parse_line(&mut self, line: &str) -> (out: Option<Event>)
        ensures
            final(self)@ == old(self)@.parse_line(line.spec_bytes()).0,
            wire(out) == old(self)@.parse_line(line.spec_bytes()).1,
    {
        let bytes = line.as_bytes();
        let colon = find_byte(bytes, COLON);
        let (name, value): (&str, Option<&str>) = match colon {
            Some(i) => {
                proof {
                    lemma_first_of(bytes@, COLON, COLON);
                }
                let (name, rest) = split_before(line, i);
                proof {
                    assert(rest.spec_bytes()[0] == COLON);
                    assert(bytes@.skip(i as int).skip(1) =~= bytes@.skip(i + 1));
                }
                (name, Some(strip_leading_space(skip_first_char(rest, 1))))
            },
            None => (line, None),
        };
        assert(name.spec_bytes() == field_name(bytes@));
        assert(match value {
            Some(v) => field_value(bytes@) == Some(v.spec_bytes()),
            None => field_value(bytes@) is None,
        });
        let name_bytes = name.as_bytes();
        if same_bytes(name_bytes, "retry".as_bytes()) {
            match value {
                Some(v) => match parse_decimal(v.as_bytes()) {
                    Some(retry) => Some(Event::Retry { retry }),
                    None => None,
                },
                None => None,
            }
        } else if same_bytes(name_bytes, "event".as_bytes()) {
            let text = match value {
                Some(v) => v.to_owned(),
                None => String::new(),
            };
            self.event = Some(text);
            None
        } else if same_bytes(name_bytes, "data".as_bytes()) {
            let ghost before = self.data@;
            let ghost added = match value {
                Some(v) => v@,
                None => Seq::<char>::empty(),
            };
            match value {
                Some(v) => {
                    self.data.append(v);
                },
                None => {},
            }
            self.data.append("\n");
            proof {
                lemma_line_feed_text();
                assert(self.data@ =~= before + added + "\n"@);
                lemma_utf8_concat(before + added, "\n"@);
                lemma_utf8_concat(before, added);
            }
            None
        } else if same_bytes(name_bytes, "id".as_bytes()) {
            match value {
                Some(v) => {
                    proof {
                        lemma_first_of(v.spec_bytes(), 0, 0);
                    }
                    match find_byte(v.as_bytes(), 0) {
                        Some(_) => None,
                        None => {
                            self.id = Some(v.to_owned());
                            self.take_message()
                        },
                    }
                },
                None => None,
            }
        } else if name_bytes.len() == 0 && value.is_none() {
            self.take_message()
        } else {
            None
        }
    }

    /// Takes lines off the front of `src`, each with its terminator, until
    /// one yields an event or no whole line is left. Bytes after the last
    /// terminator stay in `src` for the next call. A line that is not
    /// UTF-8 is taken off and reported as `Error::Utf8Error`.
    pub fn decode(&mut self, src: &mut BytesMut) -> (res: Result<Option<Event>, Error>)
        ensures
            final(self)@ == old(self)@.decode(contents(*old(src))).0,
            contents(*final(src)) == old(self)@.decode(contents(*old(src))).1,
            yielded(res) == old(self)@.decode(contents(*old(src))).2,
            res matches Err(e) ==> e is Utf8Error,
    {
        let ghost goal = self@.decode(contents(*src));
        loop
            invariant
                goal == old(self)@.decode(contents(*old(src))),
                self@.decode(contents(*src)) == goal,
            decreases contents(*src).len(),
        {
            let ghost buf = contents(*src);
            let all: &[u8] = &*src;
            let pos = match memchr::memchr2(CR, LF, all) {
                Some(pos) => pos,
                None => {
                    proof {
                        lemma_first_of_none(buf, CR, LF);
                    }
                    return Ok(None);
                },
            };
            proof {
                lemma_first_of_is(buf, CR, LF, pos as int);
            }
            let terminator = all[pos];
            let line = src.split_to(pos + 1);
            if pos == 0 && terminator == LF && self.last_was_cr {
                self.last_was_cr = false;
                assert(buf.take(0).len() == 0);
            } else {
                self.last_was_cr = terminator == CR;
                let raw = vstd::slice::slice_subrange(&*line, 0, pos);
                assert(raw@ =~= buf.take(pos as int));
                let text = match core::str::from_utf8(raw) {
                    Ok(text) => text,
                    Err(e) => {
                        return Err(Error::Utf8Error(e));
                    },
                };
                let bytes = text.as_bytes();
                let marked = !self.processed_bom && bytes.len() >= 3 && bytes[0] == 0xef
                    && bytes[1] == 0xbb && bytes[2] == 0xbf;
                let text = if marked {
                    skip_first_char(text, 3)
                } else {
                    text
                };
                self.processed_bom = true;
                match self.parse_line(text) {
                    Some(event) => {
                        return Ok(Some(event));
                    },
                    None => {},
                }
            }
        }
    }

    /// Appends `item` to `dest` as a frame of its own: its fields, then
    /// the empty line that ends the frame. The codec keeps no state of
    /// what it has encoded.
    pub fn encode(&mut self, item: Event, dest: &mut BytesMut) -> (res: Result<(), Error>)
        ensures
            res is Ok,
            final(self)@ == old(self)@,
            contents(*final(dest)) == contents(*old(dest)) + encode_frame(item@),
    {
        let mut text = item.to_string();
        let ghost fields = text@;
        text.append("\n");
        proof {
            lemma_line_feed_text();
            lemma_utf8_concat(fields, "\n"@);
        }
        dest.extend_from_slice(text.as_str().as_bytes());
        Ok(())
    }
}

impl Event {
    /// Parse an event message from a string: the first message that the
    /// lines of `s` dispatch. Without one the frame is incomplete.
    pub fn from_str(s: &str) -> (res: Result<Event, Error>)
        ensures
            match Pending::fresh().first_message(s.spec_bytes()) {
                Some(message) => res matches Ok(e) && e@ == message,
                None => res matches Err(e) && e is IncompleteFrame,
            },
    {
        let mut codec = SSECodec::default();
        let mut rest: &str = s;
        while rest.as_bytes().len() > 0
            invariant
                codec@.first_message(rest.spec_bytes()) == Pending::fresh().first_message(
                    s.spec_bytes(),
                ),
            decreases rest.spec_bytes().len(),
        {
            proof {
                lemma_after_first_line_shorter(rest.spec_bytes());
            }
            let (line, tail) = next_line(rest);
            match codec.parse_line(line) {
                Some(Event::Message { event, data }) => {
                    return Ok(Event::Message { event, data });
                },
                _ => {},
            }
            rest = tail;
        }
        Err(Error::IncompleteFrame)
    }
}

} // verus!
