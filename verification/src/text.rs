//! Text as UTF-8 bytes: cutting a string slice at positions found by
//! looking at its bytes.
use vstd::prelude::*;
use vstd::string::*;
use vstd::utf8::*;

verus! {

/// `core::str::Utf8Error`, carried as it is.
#[verifier::external_type_specification]
#[verifier::external_body]
pub struct ExUtf8Error(core::str::Utf8Error);

/// `core::str::from_utf8`: succeeds exactly on well-formed UTF-8, and the
/// text it returns is made of the very bytes given.
pub assume_specification<'a>[ core::str::from_utf8 ](v: &'a [u8]) -> (res: Result<
    &'a str,
    core::str::Utf8Error,
>)
    ensures
        res is Ok <==> valid_utf8(v@),
        res matches Ok(s) ==> s.spec_bytes() == v@,
;

/// The UTF-8 bytes of a sequence of characters.
pub open spec fn utf8(chars: Seq<char>) -> Seq<u8> {
    encode_utf8(chars)
}

/// The byte-order mark, as it is encoded in UTF-8.
pub open spec fn bom() -> Seq<u8> {
    seq![0xefu8, 0xbbu8, 0xbfu8]
}

/// Whether `bytes` begins with the byte-order mark.
pub open spec fn starts_with_bom(bytes: Seq<u8>) -> bool {
    bytes.len() >= 3 && bytes[0] == 0xef && bytes[1] == 0xbb && bytes[2] == 0xbf
}

/// The encoding of a concatenation is the concatenation of the encodings.
pub proof fn lemma_utf8_concat(a: Seq<char>, b: Seq<char>)
    ensures
        utf8(a + b) == utf8(a) + utf8(b),
    decreases a.len(),
{
    if a.len() == 0 {
        assert(a + b =~= b);
        assert(utf8(a) + utf8(b) =~= utf8(b));
    } else {
        lemma_utf8_concat(a.drop_first(), b);
        assert((a + b).drop_first() =~= a.drop_first() + b);
        assert((a + b)[0] == a[0]);
        assert(utf8(a + b) =~= utf8(a) + utf8(b));
    }
}

/// The text of one line feed is the one byte of that name.
pub proof fn lemma_line_feed_text()
    ensures
        utf8("\n"@) == seq![0x0au8],
{
    reveal_strlit("\n");
    is_ascii_chars_encode_utf8("\n"@);
    assert(utf8("\n"@) =~= seq![0x0au8]);
}

/// Two texts with the same UTF-8 bytes are the same text.
pub proof fn lemma_utf8_injective(a: Seq<char>, b: Seq<char>)
    requires
        utf8(a) == utf8(b),
    ensures
        a == b,
{
    encode_utf8_decode_utf8(a);
    encode_utf8_decode_utf8(b);
}

/// Cuts `s` in two before the byte at index `at`, which holds an ASCII
/// byte or is the end of the text.
pub(crate) fn split_before(s: &str, at: usize) -> (parts: (&str, &str))
    requires
        at <= s.spec_bytes().len(),
        at < s.spec_bytes().len() ==> s.spec_bytes()[at as int] < 0x80,
    ensures
        parts.0.spec_bytes() == s.spec_bytes().take(at as int),
        parts.1.spec_bytes() == s.spec_bytes().skip(at as int),
{
    proof {
        let bytes = s.spec_bytes();
        encode_utf8_valid_utf8(s@);
        if at < bytes.len() {
            is_char_boundary_iff_not_is_continuation_byte(bytes, at as int);
        } else {
            is_char_boundary_start_end_of_seq(bytes);
        }
    }
    s.split_at(at)
}

/// Drops the first `width` bytes of `s`, which are one whole character.
pub(crate) fn skip_first_char(s: &str, width: usize) -> (rest: &str)
    requires
        s.spec_bytes().len() > 0,
        width == length_of_first_scalar(s.spec_bytes()),
    ensures
        rest.spec_bytes() == s.spec_bytes().skip(width as int),
{
    proof {
        let bytes = s.spec_bytes();
        encode_utf8_valid_utf8(s@);
        encode_utf8_valid_utf8(Seq::<char>::empty());
        reveal_with_fuel(is_char_boundary, 2);
        assert(valid_first_scalar(bytes));
        assert(is_char_boundary(pop_first_scalar(bytes), 0));
        assert(is_char_boundary(bytes, width as int));
    }
    s.split_at(width).1
}

} // verus!
