//! The lines of a text that is held whole: a line ends at a line feed,
//! a carriage return right before that line feed belongs to the ending,
//! and the last line needs no ending.
use vstd::prelude::*;
use vstd::string::*;
use crate::scan::{find_byte, first_of, lemma_first_of, CR, LF};
use crate::text::{skip_first_char, split_before};

verus! {

/// `line` without its last byte, if that is a carriage return.
pub open spec fn trim_carriage_return(line: Seq<u8>) -> Seq<u8> {
    if line.len() > 0 && line.last() == CR {
        line.drop_last()
    } else {
        line
    }
}

/// The first line of `text`, without its ending.
pub open spec fn first_line(text: Seq<u8>) -> Seq<u8> {
    match first_of(text, LF, LF) {
        Some(i) => trim_carriage_return(text.take(i)),
        None => text,
    }
}

/// What follows the first line of `text` and its ending.
pub open spec fn after_first_line(text: Seq<u8>) -> Seq<u8> {
    match first_of(text, LF, LF) {
        Some(i) => text.skip(i + 1),
        None => Seq::empty(),
    }
}

/// What follows the first line is shorter than the text.
pub proof fn lemma_after_first_line_shorter(text: Seq<u8>)
    requires
        text.len() > 0,
    ensures
        after_first_line(text).len() < text.len(),
{
    lemma_first_of(text, LF, LF);
}

/// Parts a text that is not empty into its first line and what follows
/// that line's ending.
pub(crate) fn next_line(text: &str) -> (parts: (&str, &str))
    requires
        text.spec_bytes().len() > 0,
    ensures
        parts.0.spec_bytes() == first_line(text.spec_bytes()),
        parts.1.spec_bytes() == after_first_line(text.spec_bytes()),
{
    let bytes = text.as_bytes();
    match find_byte(bytes, LF) {
        Some(i) => {
            proof {
                lemma_first_of(bytes@, LF, LF);
            }
            let (head, tail) = split_before(text, i);
            let rest = skip_first_char(tail, 1);
            assert(bytes@.skip(i as int).skip(1) =~= bytes@.skip(i + 1));
            let head_bytes = head.as_bytes();
            let n = head_bytes.len();
            let line = if n > 0 && head_bytes[n - 1] == CR {
                split_before(head, n - 1).0
            } else {
                head
            };
            (line, rest)
        },
        None => {
            let (line, rest) = split_before(text, bytes.len());
            assert(line.spec_bytes() =~= bytes@);
            assert(rest.spec_bytes() =~= Seq::<u8>::empty());
            (line, rest)
        },
    }
}

} // verus!
