//! Round trips: what the encoder writes, the decoder reads back.
use vstd::prelude::*;
use vstd::utf8::{
    encode_utf8_valid_utf8, is_char_boundary_iff_not_is_continuation_byte,
    is_leading_byte_width_1, partial_valid_utf8_extend_ascii_block, pop_first_scalar,
    valid_first_scalar, valid_utf8, valid_utf8_concat, valid_utf8_split,
};
use crate::event::WireEvent;
use crate::format::{data_fields, decimal_digits, encode_frame};
use crate::grammar::{all_digits, field_name, field_value, has_nul, is_digit, Pending, Yield};
use crate::laws::{lemma_field_of, lemma_words, parsed_as_text};
use crate::lines::{after_first_line, first_line};
use crate::number::lemma_decimal_round_trip;
use crate::scan::{
    first_of, has_none_of, lemma_first_of, lemma_first_of_is, lemma_first_of_none, COLON, CR, LF,
    SPACE,
};
use crate::stream::drain;
use crate::text::utf8;

verus! {

/// Whether nothing is pending: no last event ID, no event type, no data.
pub open spec fn idle(st: Pending) -> bool {
    st.id is None && st.event is None && st.data.len() == 0
}

/// The marks of a decoder right after a line that ended in a line feed.
pub open spec fn after_line(st: Pending) -> Pending {
    Pending { processed_bom: true, last_was_cr: false, ..st }
}

/// `data` with a line feed at its end, added where it has none.
pub open spec fn terminated(data: Seq<u8>) -> Seq<u8> {
    if data.len() > 0 && data.last() == LF {
        data
    } else {
        data + seq![LF]
    }
}

/// A call of the decoder on a line, its line feed and more bytes: the
/// line is fed, and where it yields nothing the call goes on with the
/// bytes after it.
proof fn lemma_decode_line(st: Pending, line: Seq<u8>, rest: Seq<u8>)
    requires
        has_none_of(line, CR, LF),
    ensures
        st.decode(line + seq![LF] + rest) == (match st.feed_line(line, LF) {
            (next, Some(y)) => (next, rest, Some(y)),
            (next, None) => next.decode(rest),
        }),
{
    let buf = line + seq![LF] + rest;
    let at = line.len() as int;
    assert(buf[at] == LF);
    assert forall|j: int| 0 <= j < at implies buf[j] != CR && buf[j] != LF by {
        assert(buf[j] == line[j]);
    }
    lemma_first_of_is(buf, CR, LF, at);
    assert(buf.take(at) =~= line);
    assert(buf.skip(at + 1) =~= rest);
}

/// Text cut at an ASCII byte leaves text before and after that byte.
proof fn lemma_cut_at_ascii(text: Seq<u8>, at: int)
    requires
        valid_utf8(text),
        0 <= at < text.len(),
        text[at] < 0x80,
    ensures
        valid_utf8(text.take(at)),
        valid_utf8(text.skip(at + 1)),
{
    is_char_boundary_iff_not_is_continuation_byte(text, at);
    valid_utf8_split(text, at);
    let tail = text.subrange(at, text.len() as int);
    assert(text.take(at) =~= text.subrange(0, at));
    assert(tail[0] == text[at]);
    assert(valid_first_scalar(tail));
    assert(pop_first_scalar(tail) =~= text.skip(at + 1));
}

/// A line made of a label and a value is fed as the field that the label
/// names, with that value.
proof fn lemma_feed_field(st: Pending, name: Seq<u8>, label: Seq<u8>, value: Seq<u8>)
    requires
        label == name + seq![COLON, SPACE],
        first_of(name, COLON, COLON) is None,
        has_none_of(label, CR, LF),
        valid_utf8(label),
        label[0] != 0xef,
        valid_utf8(value),
    ensures
        st.feed_line(label + value, LF) == parsed_as_text(st, label + value, LF),
        field_name(label + value) == name,
        field_value(label + value) == Some(value),
        has_none_of(value, CR, LF) ==> has_none_of(label + value, CR, LF),
{
    let line = label + value;
    valid_utf8_concat(label, value);
    assert(line[0] == label[0]);
    let after = seq![SPACE] + value;
    assert(line =~= name + seq![COLON] + after);
    lemma_field_of(name, after);
    assert(after.skip(1) =~= value);
    if has_none_of(value, CR, LF) {
        assert forall|j: int| 0 <= j < line.len() implies line[j] != CR && line[j] != LF by {
            if j < label.len() {
                assert(line[j] == label[j]);
            } else {
                assert(line[j] == value[j - label.len()]);
            }
        }
    }
}

/// The `data` fields of a text without carriage returns fill the data
/// buffer with that text, a line feed after its last line.
proof fn lemma_decode_data_fields(st: Pending, data: Seq<u8>, rest: Seq<u8>)
    requires
        valid_utf8(data),
        has_none_of(data, CR, CR),
        data.len() > 0,
    ensures
        st.decode(data_fields(data) + rest) == (Pending {
            data: st.data + terminated(data),
            ..after_line(st)
        }).decode(rest),
    decreases data.len(),
{
    lemma_words();
    lemma_first_of(data, LF, LF);
    lemma_first_of(utf8("data"@), COLON, COLON);
    encode_utf8_valid_utf8("data: "@);
    let label = utf8("data: "@);
    let line = first_line(data);
    let after = after_first_line(data);
    assert(valid_utf8(line) && valid_utf8(after) && has_none_of(line, CR, LF)
        && st.data + line + seq![LF] + (if after.len() > 0 {
        terminated(after)
    } else {
        Seq::<u8>::empty()
    }) =~= st.data + terminated(data) && has_none_of(after, CR, CR)) by {
        match first_of(data, LF, LF) {
            Some(i) => {
                lemma_cut_at_ascii(data, i);
                assert(line =~= data.take(i));
                if after.len() > 0 {
                    assert(after.last() == data.last());
                }
            },
            None => {
                assert(valid_utf8(Seq::<u8>::empty()));
            },
        }
    }
    assert(label =~= utf8("data"@) + seq![COLON, SPACE]);
    lemma_feed_field(st, utf8("data"@), label, line);
    let fed = Pending { data: st.data + line + seq![LF], ..after_line(st) };
    assert(st.feed_line(label + line, LF) == (fed, None::<Yield>));
    lemma_decode_line(st, label + line, data_fields(after) + rest);
    assert(data_fields(data) + rest =~= (label + line) + seq![LF] + (data_fields(after) + rest));
    if after.len() > 0 {
        lemma_decode_data_fields(fed, after, rest);
        assert(after_line(fed) == fed);
    } else {
        assert(data_fields(after) + rest =~= rest);
    }
}

/// The empty line that ends a frame dispatches what is pending.
proof fn lemma_decode_frame_end(st: Pending)
    requires
        !st.last_was_cr,
    ensures
        st.decode(seq![LF]) == (match st.take_message() {
            (next, Some(e)) => (after_line(next), Seq::<u8>::empty(), Some(Yield::Event(e))),
            (next, None) => (after_line(next), Seq::<u8>::empty(), None::<Yield>),
        }),
{
    lemma_words();
    let line = Seq::<u8>::empty();
    lemma_first_of_none(line, COLON, COLON);
    lemma_first_of_none(line, CR, LF);
    lemma_decode_line(st, line, Seq::<u8>::empty());
    assert(line + seq![LF] + Seq::<u8>::empty() =~= seq![LF]);
    assert(valid_utf8(line));
    lemma_first_of_none(Seq::<u8>::empty(), CR, LF);
}

/// A message comes back from its own frame: a decoder with nothing
/// pending that drains the frame of a message yields that message and
/// nothing else, consumes the frame whole, and has nothing pending again.
/// This holds of a message whose event type holds no line terminator and
/// whose data holds no carriage return, is not empty and does not end in
/// a line feed.
pub proof fn lemma_message_round_trip(st: Pending, event: Seq<u8>, data: Seq<u8>)
    requires
        idle(st),
        valid_utf8(event),
        valid_utf8(data),
        has_none_of(event, CR, LF),
        has_none_of(data, CR, CR),
        data.len() > 0,
        data.last() != LF,
    ensures
        drain(st, encode_frame(WireEvent::Message { event, data })) == (
            after_line(st),
            Seq::<u8>::empty(),
            seq![Yield::Event(WireEvent::Message { event, data })],
        ),
{
    lemma_words();
    let message = WireEvent::Message { event, data };
    let frame = encode_frame(message);
    let end = seq![LF];
    let named = Pending { event: Some(event), ..after_line(st) };
    let start = if event == utf8("message"@) {
        st
    } else {
        named
    };
    assert(st.decode(frame) == start.decode(data_fields(data) + end)) by {
        if event == utf8("message"@) {
            assert(frame =~= data_fields(data) + end);
        } else {
            let label = utf8("event: "@);
            lemma_first_of(utf8("event"@), COLON, COLON);
            encode_utf8_valid_utf8("event: "@);
            assert(label =~= utf8("event"@) + seq![COLON, SPACE]);
            lemma_feed_field(st, utf8("event"@), label, event);
            assert(st.feed_line(label + event, LF) == (named, None::<Yield>));
            lemma_decode_line(st, label + event, data_fields(data) + end);
            assert(frame =~= (label + event) + seq![LF] + (data_fields(data) + end));
        }
    }
    lemma_decode_data_fields(start, data, end);
    let full = Pending { data: start.data + terminated(data), ..after_line(start) };
    lemma_decode_frame_end(full);
    assert(start.data + terminated(data) =~= data + seq![LF]);
    assert((data + seq![LF]).drop_last() =~= data);
    assert(full.take_message() == (Pending { event: None, data: Seq::empty(), ..full }, Some(
        message,
    )));
    let done = after_line(st);
    assert(st.data =~= Seq::<u8>::empty());
    assert(after_line(Pending { event: None, data: Seq::empty(), ..full }) == done);
    assert(full.decode(end) == (done, Seq::<u8>::empty(), Some(Yield::Event(message))));
    assert(st.decode(frame) == (done, Seq::<u8>::empty(), Some(Yield::Event(message))));
    lemma_first_of_none(Seq::<u8>::empty(), CR, LF);
    assert(drain(done, Seq::<u8>::empty()) == (done, Seq::<u8>::empty(), Seq::<Yield>::empty()));
    assert(seq![Yield::Event(message)] + Seq::<Yield>::empty() =~= seq![Yield::Event(message)]);
}

/// Digits are text without line terminators.
proof fn lemma_digits_are_text(digits: Seq<u8>)
    requires
        all_digits(digits),
    ensures
        valid_utf8(digits),
        has_none_of(digits, CR, LF),
        !has_nul(digits),
{
    assert(valid_utf8(digits.subrange(0, 0)));
    assert forall|i: int| 0 <= i < digits.len() implies #[trigger] is_leading_byte_width_1(
        digits[i],
    ) by {
        assert(is_digit(digits[i]));
    }
    partial_valid_utf8_extend_ascii_block(digits, 0, digits.len() as int);
    assert(digits.subrange(0, digits.len() as int) =~= digits);
    assert forall|j: int| 0 <= j < digits.len() implies digits[j] != CR && digits[j] != LF by {
        assert(is_digit(digits[j]));
    }
    assert forall|j: int| 0 <= j < digits.len() implies digits[j] != 0 by {
        assert(is_digit(digits[j]));
    }
}

/// A reconnection time comes back from its own frame: a decoder with
/// nothing pending that drains the frame yields that time and nothing
/// else.
pub proof fn lemma_retry_round_trip(st: Pending, retry: u64)
    requires
        idle(st),
    ensures
        drain(st, encode_frame(WireEvent::Retry { retry })) == (
            after_line(st),
            Seq::<u8>::empty(),
            seq![Yield::Event(WireEvent::Retry { retry })],
        ),
{
    lemma_words();
    let event = WireEvent::Retry { retry };
    let frame = encode_frame(event);
    let digits = decimal_digits(retry as nat);
    let label = utf8("retry: "@);
    lemma_decimal_round_trip(retry as nat);
    lemma_digits_are_text(digits);
    lemma_first_of(utf8("retry"@), COLON, COLON);
    encode_utf8_valid_utf8("retry: "@);
    assert(label =~= utf8("retry"@) + seq![COLON, SPACE]);
    lemma_feed_field(st, utf8("retry"@), label, digits);
    let done = after_line(st);
    assert(st.feed_line(label + digits, LF) == (done, Some(Yield::Event(event))));
    lemma_decode_line(st, label + digits, seq![LF]);
    assert(frame =~= (label + digits) + seq![LF] + seq![LF]);
    assert(st.decode(frame) == (done, seq![LF], Some(Yield::Event(event))));
    lemma_decode_frame_end(done);
    assert(done.take_message() == (done, None::<WireEvent>));
    assert(after_line(done) == done);
    assert(drain(done, seq![LF]) == (done, Seq::<u8>::empty(), Seq::<Yield>::empty()));
    assert(seq![Yield::Event(event)] + Seq::<Yield>::empty() =~= seq![Yield::Event(event)]);
}

/// A last event ID comes back from its own frame, if it is not empty and
/// holds neither a line terminator nor the byte zero: a decoder with
/// nothing pending that drains the frame yields that ID and nothing else.
pub proof fn lemma_id_round_trip(st: Pending, id: Seq<u8>)
    requires
        idle(st),
        valid_utf8(id),
        has_none_of(id, CR, LF),
        !has_nul(id),
        id.len() > 0,
    ensures
        drain(st, encode_frame(WireEvent::LastEventId { id })) == (
            after_line(st),
            Seq::<u8>::empty(),
            seq![Yield::Event(WireEvent::LastEventId { id })],
        ),
{
    lemma_words();
    let event = WireEvent::LastEventId { id };
    let frame = encode_frame(event);
    let label = utf8("id: "@);
    lemma_first_of(utf8("id"@), COLON, COLON);
    encode_utf8_valid_utf8("id: "@);
    assert(label =~= utf8("id"@) + seq![COLON, SPACE]);
    lemma_feed_field(st, utf8("id"@), label, id);
    let done = after_line(st);
    assert((Pending { id: None, ..done }) == done);
    assert(st.feed_line(label + id, LF) == (done, Some(Yield::Event(event))));
    lemma_decode_line(st, label + id, seq![LF]);
    assert(frame =~= (label + id) + seq![LF] + seq![LF]);
    assert(st.decode(frame) == (done, seq![LF], Some(Yield::Event(event))));
    lemma_decode_frame_end(done);
    assert(done.take_message() == (done, None::<WireEvent>));
    assert(after_line(done) == done);
    assert(drain(done, seq![LF]) == (done, Seq::<u8>::empty(), Seq::<Yield>::empty()));
    assert(seq![Yield::Event(event)] + Seq::<Yield>::empty() =~= seq![Yield::Event(event)]);
}

} // verus!
