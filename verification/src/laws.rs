//! What holds of the decoder whatever the stream: the byte-order mark
//! counts once, a last event ID is reported apart from the message
//! around it, and the data buffer keeps its separator.
use vstd::prelude::*;
use vstd::utf8::{is_ascii_chars_encode_utf8, valid_utf8};
use crate::event::WireEvent;
use crate::grammar::{
    field_name, field_value, has_nul, or_empty, strip_space, trim_line_feed, Pending, Yield,
};
use crate::scan::{first_of, lemma_first_of, lemma_first_of_is, COLON, CR, LF};
use crate::text::{bom, starts_with_bom, utf8};

verus! {

/// The words of the format, byte by byte.
pub proof fn lemma_words()
    ensures
        utf8("retry"@) == seq![0x72u8, 0x65u8, 0x74u8, 0x72u8, 0x79u8],
        utf8("event"@) == seq![0x65u8, 0x76u8, 0x65u8, 0x6eu8, 0x74u8],
        utf8("data"@) == seq![0x64u8, 0x61u8, 0x74u8, 0x61u8],
        utf8("id"@) == seq![0x69u8, 0x64u8],
        utf8("message"@) == seq![0x6du8, 0x65u8, 0x73u8, 0x73u8, 0x61u8, 0x67u8, 0x65u8],
        utf8("retry: "@) == seq![0x72u8, 0x65u8, 0x74u8, 0x72u8, 0x79u8, 0x3au8, 0x20u8],
        utf8("event: "@) == seq![0x65u8, 0x76u8, 0x65u8, 0x6eu8, 0x74u8, 0x3au8, 0x20u8],
        utf8("data: "@) == seq![0x64u8, 0x61u8, 0x74u8, 0x61u8, 0x3au8, 0x20u8],
        utf8("id: "@) == seq![0x69u8, 0x64u8, 0x3au8, 0x20u8],
{
    reveal_strlit("retry");
    reveal_strlit("event");
    reveal_strlit("data");
    reveal_strlit("id");
    reveal_strlit("message");
    reveal_strlit("retry: ");
    reveal_strlit("event: ");
    reveal_strlit("data: ");
    reveal_strlit("id: ");
    is_ascii_chars_encode_utf8("retry"@);
    is_ascii_chars_encode_utf8("event"@);
    is_ascii_chars_encode_utf8("data"@);
    is_ascii_chars_encode_utf8("id"@);
    is_ascii_chars_encode_utf8("message"@);
    is_ascii_chars_encode_utf8("retry: "@);
    is_ascii_chars_encode_utf8("event: "@);
    is_ascii_chars_encode_utf8("data: "@);
    is_ascii_chars_encode_utf8("id: "@);
    assert(utf8("retry"@) =~= seq![0x72u8, 0x65u8, 0x74u8, 0x72u8, 0x79u8]);
    assert(utf8("event"@) =~= seq![0x65u8, 0x76u8, 0x65u8, 0x6eu8, 0x74u8]);
    assert(utf8("data"@) =~= seq![0x64u8, 0x61u8, 0x74u8, 0x61u8]);
    assert(utf8("id"@) =~= seq![0x69u8, 0x64u8]);
    assert(utf8("message"@) =~= seq![0x6du8, 0x65u8, 0x73u8, 0x73u8, 0x61u8, 0x67u8, 0x65u8]);
    assert(utf8("retry: "@) =~= seq![0x72u8, 0x65u8, 0x74u8, 0x72u8, 0x79u8, 0x3au8, 0x20u8]);
    assert(utf8("event: "@) =~= seq![0x65u8, 0x76u8, 0x65u8, 0x6eu8, 0x74u8, 0x3au8, 0x20u8]);
    assert(utf8("data: "@) =~= seq![0x64u8, 0x61u8, 0x74u8, 0x61u8, 0x3au8, 0x20u8]);
    assert(utf8("id: "@) =~= seq![0x69u8, 0x64u8, 0x3au8, 0x20u8]);
}

/// A line made of a name without a colon, a colon and more is the field
/// of that name, with what follows the colon, less one leading space, as
/// its value.
pub proof fn lemma_field_of(name: Seq<u8>, after: Seq<u8>)
    requires
        first_of(name, COLON, COLON) is None,
    ensures
        field_name(name + seq![COLON] + after) == name,
        field_value(name + seq![COLON] + after) == Some(strip_space(after)),
{
    let line = name + seq![COLON] + after;
    lemma_first_of(name, COLON, COLON);
    assert(line[name.len() as int] == COLON);
    assert forall|j: int| 0 <= j < name.len() implies line[j] != COLON by {
        assert(line[j] == name[j]);
    }
    lemma_first_of_is(line, COLON, COLON, name.len() as int);
    assert(line.take(name.len() as int) =~= name);
    assert(line.skip(name.len() as int + 1) =~= after);
}

/// A last event ID is reported the moment its line is read, alone, and
/// without touching the event type and the data that are pending: the
/// message around it is dispatched by its own empty line, as if the `id`
/// line had not been there.
pub proof fn lemma_id_is_reported_apart(st: Pending, after: Seq<u8>)
    requires
        !has_nul(strip_space(after)),
    ensures
        st.parse_line(utf8("id"@) + seq![COLON] + after) == (
            Pending { id: None, ..st },
            Some(WireEvent::LastEventId { id: strip_space(after) }),
        ),
        st.id is None ==> st.parse_line(utf8("id"@) + seq![COLON] + after).0.parse_line(
            Seq::empty(),
        ) == st.parse_line(Seq::empty()),
{
    lemma_words();
    lemma_first_of(utf8("id"@), COLON, COLON);
    lemma_field_of(utf8("id"@), after);
    if st.id is None {
        assert((Pending { id: None, ..st }) == st);
    }
}

/// What a line does once it is known to be text and has lost its mark:
/// it sets the two marks and is parsed as a field.
pub open spec fn parsed_as_text(st: Pending, text: Seq<u8>, terminator: u8) -> (
    Pending,
    Option<Yield>,
) {
    let (after, event) = (Pending {
        processed_bom: true,
        last_was_cr: terminator == CR,
        ..st
    }).parse_line(text);
    (
        after,
        match event {
            Some(e) => Some(Yield::Event(e)),
            None => None,
        },
    )
}

/// The byte-order mark counts once, at the start of the first line: there
/// it is taken off before the line is parsed, and only one of it. On
/// every later line it is left where it stands, as part of the field's
/// name. Once a line has been parsed, every line after it is a later
/// line.
pub proof fn lemma_mark_is_stripped_once(st: Pending, line: Seq<u8>, terminator: u8)
    requires
        valid_utf8(line),
        !(line.len() == 0 && terminator == LF && st.last_was_cr),
    ensures
        !st.processed_bom ==> st.feed_line(bom() + line, terminator) == parsed_as_text(
            st,
            line,
            terminator,
        ),
        st.processed_bom ==> st.feed_line(line, terminator) == parsed_as_text(
            st,
            line,
            terminator,
        ),
        st.feed_line(line, terminator).0.processed_bom,
{
    let marked = bom() + line;
    assert(marked.skip(3) =~= line);
    assert(valid_utf8(marked)) by {
        reveal_with_fuel(valid_utf8, 2);
        assert(vstd::utf8::pop_first_scalar(marked) =~= line);
        lemma_mark_is_a_scalar();
        assert(vstd::utf8::valid_first_scalar(marked));
    }
}

/// The three bytes of the byte-order mark are one well-formed character.
proof fn lemma_mark_is_a_scalar()
    ensures
        vstd::utf8::codepoint_width_3(0xefu8, 0xbbu8, 0xbfu8) == 0xfeffu32,
{
    assert(((((0xefu8 & 0x0fu8) as u32) << 12u32) | (((0xbbu8 & 0x3fu8) as u32) << 6u32) | ((
    0xbfu8 & 0x3fu8) as u32)) == 0xfeffu32) by (bit_vector);
}

/// The data buffer keeps its separator: if it is empty or ends in a line
/// feed before a line, it is empty or ends in a line feed after it, and
/// the data of a message is what was buffered less that last line feed.
pub proof fn lemma_data_keeps_its_separator(st: Pending, line: Seq<u8>)
    requires
        st.wf(),
    ensures
        st.parse_line(line).0.wf(),
        st.take_message().0.wf(),
        st.take_message().1 matches Some(WireEvent::Message { data, .. }) ==> data + seq![LF]
            == st.data,
{
    let joined = st.data + or_empty(field_value(line)) + seq![LF];
    assert(joined.last() == LF);
    if st.data.len() > 0 {
        assert(trim_line_feed(st.data) + seq![LF] =~= st.data);
    }
}

/// A stream keeps the data buffer's separator: what holds before a call
/// of the decoder holds after it.
pub proof fn lemma_decode_keeps_wf(st: Pending, buf: Seq<u8>)
    requires
        st.wf(),
    ensures
        st.decode(buf).0.wf(),
    decreases buf.len(),
{
    lemma_first_of(buf, CR, LF);
    match first_of(buf, CR, LF) {
        Some(pos) => {
            let line = buf.take(pos);
            let (next, got) = st.feed_line(line, buf[pos]);
            let marked = Pending { last_was_cr: buf[pos] == CR, ..st };
            let text = if !marked.processed_bom && starts_with_bom(line) {
                line.skip(3)
            } else {
                line
            };
            lemma_data_keeps_its_separator(Pending { processed_bom: true, ..marked }, text);
            if got is None {
                lemma_decode_keeps_wf(next, buf.skip(pos + 1));
            }
        },
        None => {},
    }
}

} // verus!
