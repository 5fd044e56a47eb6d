//! A stream as a whole: what the decoder yields from bytes that arrive
//! in chunks, and that the cuts between the chunks do not matter.
use vstd::prelude::*;
use crate::grammar::{Pending, Yield};
use crate::scan::{
    first_of, has_none_of, lemma_first_of, lemma_first_of_append, lemma_first_of_none, CR, LF,
};

verus! {

/// All that the decoder yields from `buf` when it is called until it
/// asks for more bytes: the state after the last call, the bytes that
/// stay buffered, and what the calls yielded, in order.
pub open spec fn drain(st: Pending, buf: Seq<u8>) -> (Pending, Seq<u8>, Seq<Yield>)
    decreases buf.len(),
{
    let (next, rest, got) = st.decode(buf);
    match got {
        Some(y) => {
            proof {
                lemma_decode_shrinks(st, buf);
            }
            let (last, left, more) = drain(next, rest);
            (last, left, seq![y] + more)
        },
        None => (next, rest, Seq::empty()),
    }
}

/// All that the decoder yields when the chunks arrive one after the
/// other, each appended to what the calls before it left in the buffer,
/// and the decoder is called after each until it asks for more bytes.
pub open spec fn feed(st: Pending, buf: Seq<u8>, chunks: Seq<Seq<u8>>) -> (
    Pending,
    Seq<u8>,
    Seq<Yield>,
)
    decreases chunks.len(),
{
    if chunks.len() == 0 {
        (st, buf, Seq::empty())
    } else {
        let (next, rest, got) = drain(st, buf + chunks.first());
        let (last, left, more) = feed(next, rest, chunks.drop_first());
        (last, left, got + more)
    }
}

/// The chunks put together, in order.
pub open spec fn joined(chunks: Seq<Seq<u8>>) -> Seq<u8>
    decreases chunks.len(),
{
    if chunks.len() == 0 {
        Seq::empty()
    } else {
        chunks.first() + joined(chunks.drop_first())
    }
}

/// A call of the decoder leaves no more bytes than it found, and fewer
/// when it yields something.
pub proof fn lemma_decode_shrinks(st: Pending, buf: Seq<u8>)
    ensures
        st.decode(buf).1.len() <= buf.len(),
        st.decode(buf).2 is Some ==> st.decode(buf).1.len() < buf.len(),
    decreases buf.len(),
{
    lemma_first_of(buf, CR, LF);
    match first_of(buf, CR, LF) {
        Some(pos) => {
            let (next, got) = st.feed_line(buf.take(pos), buf[pos]);
            if got is None {
                lemma_decode_shrinks(next, buf.skip(pos + 1));
            }
        },
        None => {},
    }
}

/// A call that yields nothing leaves bytes without a line terminator,
/// and a second call right after it changes nothing.
pub proof fn lemma_decode_settles(st: Pending, buf: Seq<u8>)
    ensures
        st.decode(buf).2 is None ==> {
            &&& has_none_of(st.decode(buf).1, CR, LF)
            &&& st.decode(buf).0.decode(st.decode(buf).1) == st.decode(buf)
        },
    decreases buf.len(),
{
    lemma_first_of(buf, CR, LF);
    match first_of(buf, CR, LF) {
        Some(pos) => {
            let (next, got) = st.feed_line(buf.take(pos), buf[pos]);
            if got is None {
                lemma_decode_settles(next, buf.skip(pos + 1));
            }
        },
        None => {},
    }
}

/// Bytes that arrive later do not change what a call yields from the
/// bytes before them: a call that yields something yields the same and
/// leaves the later bytes behind what it left; a call that yields nothing
/// goes on, on the later bytes, from where it stopped.
pub proof fn lemma_decode_append(st: Pending, a: Seq<u8>, b: Seq<u8>)
    ensures
        st.decode(a).2 is Some ==> st.decode(a + b) == (
            st.decode(a).0,
            st.decode(a).1 + b,
            st.decode(a).2,
        ),
        st.decode(a).2 is None ==> st.decode(a + b) == st.decode(a).0.decode(st.decode(a).1 + b),
    decreases a.len(),
{
    lemma_first_of(a, CR, LF);
    lemma_first_of_append(a, b, CR, LF);
    match first_of(a, CR, LF) {
        Some(pos) => {
            let whole = a + b;
            assert(whole.take(pos) =~= a.take(pos));
            assert(whole[pos] == a[pos]);
            assert(whole.skip(pos + 1) =~= a.skip(pos + 1) + b);
            let (next, got) = st.feed_line(a.take(pos), a[pos]);
            if got is None {
                lemma_decode_append(next, a.skip(pos + 1), b);
            }
        },
        None => {},
    }
}

/// Draining the bytes `a + b` at once yields what draining `a` and then,
/// with `b` appended to what that left, draining again yields.
pub proof fn lemma_drain_append(st: Pending, a: Seq<u8>, b: Seq<u8>)
    ensures
        drain(st, a + b) == ({
            let (next, rest, got) = drain(st, a);
            let (last, left, more) = drain(next, rest + b);
            (last, left, got + more)
        }),
    decreases a.len(),
{
    lemma_decode_append(st, a, b);
    lemma_decode_shrinks(st, a);
    let (n1, r1, got1) = st.decode(a);
    match got1 {
        Some(y) => {
            lemma_drain_append(n1, r1, b);
            let (next, rest, got) = drain(n1, r1);
            let (last, left, more) = drain(next, rest + b);
            assert(seq![y] + (got + more) =~= (seq![y] + got) + more);
        },
        None => {
            let (last, left, more) = drain(n1, r1 + b);
            assert(Seq::<Yield>::empty() + more =~= more);
        },
    }
}

/// Draining leaves bytes without a line terminator.
pub proof fn lemma_drain_settles(st: Pending, buf: Seq<u8>)
    ensures
        has_none_of(drain(st, buf).1, CR, LF),
    decreases buf.len(),
{
    lemma_decode_shrinks(st, buf);
    lemma_decode_settles(st, buf);
    let (next, rest, got) = st.decode(buf);
    if got is Some {
        lemma_drain_settles(next, rest);
    }
}

/// Chunk-boundary invariance, with bytes already buffered: if what is
/// buffered holds no line terminator, feeding the chunks one by one
/// yields what draining all the bytes at once yields, and leaves the same
/// state and the same bytes.
pub proof fn lemma_feed_is_drain(st: Pending, buf: Seq<u8>, chunks: Seq<Seq<u8>>)
    requires
        has_none_of(buf, CR, LF),
    ensures
        feed(st, buf, chunks) == drain(st, buf + joined(chunks)),
    decreases chunks.len(),
{
    if chunks.len() == 0 {
        assert(buf + joined(chunks) =~= buf);
        lemma_first_of_none(buf, CR, LF);
    } else {
        let head = chunks.first();
        let tail = chunks.drop_first();
        let (next, rest, got) = drain(st, buf + head);
        lemma_drain_settles(st, buf + head);
        lemma_feed_is_drain(next, rest, tail);
        lemma_drain_append(st, buf + head, joined(tail));
        assert((buf + head) + joined(tail) =~= buf + joined(chunks));
    }
}

/// Chunk-boundary invariance: however a stream is cut into chunks, a
/// cut between a carriage return and its line feed included, decoding
/// the chunks as they arrive yields the same events and reports, in the
/// same order, as decoding the whole stream at once.
pub proof fn lemma_chunk_boundaries_do_not_matter(st: Pending, chunks: Seq<Seq<u8>>)
    ensures
        feed(st, Seq::empty(), chunks) == drain(st, joined(chunks)),
{
    lemma_feed_is_drain(st, Seq::empty(), chunks);
    assert(Seq::<u8>::empty() + joined(chunks) =~= joined(chunks));
}

/// Two ways of cutting one stream into chunks yield the same.
pub proof fn lemma_same_stream_same_events(st: Pending, one: Seq<Seq<u8>>, other: Seq<Seq<u8>>)
    requires
        joined(one) == joined(other),
    ensures
        feed(st, Seq::empty(), one) == feed(st, Seq::empty(), other),
{
    lemma_chunk_boundaries_do_not_matter(st, one);
    lemma_chunk_boundaries_do_not_matter(st, other);
}

} // verus!
