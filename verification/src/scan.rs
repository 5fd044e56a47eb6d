//! Finding a byte in a run of bytes.
use vstd::prelude::*;

verus! {

/// Line feed.
pub const LF: u8 = 0x0a;

/// Carriage return.
pub const CR: u8 = 0x0d;

/// The colon that parts a field's name from its value.
pub const COLON: u8 = 0x3a;

/// The space that may follow the colon.
pub const SPACE: u8 = 0x20;

/// The least index at which `a` or `b` stands in `s`, if there is one.
pub open spec fn first_of(s: Seq<u8>, a: u8, b: u8) -> Option<int>
    decreases s.len(),
{
    if s.len() == 0 {
        None
    } else if s[0] == a || s[0] == b {
        Some(0)
    } else {
        match first_of(s.drop_first(), a, b) {
            Some(i) => Some(i + 1),
            None => None,
        }
    }
}

/// Whether `i` is the least index at which `a` or `b` stands in `s`.
pub open spec fn is_first_of(s: Seq<u8>, a: u8, b: u8, i: int) -> bool {
    &&& 0 <= i < s.len()
    &&& (s[i] == a || s[i] == b)
    &&& forall|j: int| 0 <= j < i ==> s[j] != a && s[j] != b
}

/// Whether neither `a` nor `b` stands anywhere in `s`.
pub open spec fn has_none_of(s: Seq<u8>, a: u8, b: u8) -> bool {
    forall|j: int| 0 <= j < s.len() ==> s[j] != a && s[j] != b
}

/// `first_of` finds the least index, and finds none only where there is none.
pub proof fn lemma_first_of(s: Seq<u8>, a: u8, b: u8)
    ensures
        match first_of(s, a, b) {
            Some(i) => is_first_of(s, a, b, i),
            None => has_none_of(s, a, b),
        },
    decreases s.len(),
{
    if s.len() != 0 && !(s[0] == a || s[0] == b) {
        let t = s.drop_first();
        lemma_first_of(t, a, b);
        match first_of(t, a, b) {
            Some(i) => {
                assert forall|j: int| 0 <= j < i + 1 implies s[j] != a && s[j] != b by {
                    if j > 0 {
                        assert(s[j] == t[j - 1]);
                    }
                }
            },
            None => {
                assert forall|j: int| 0 <= j < s.len() implies s[j] != a && s[j] != b by {
                    if j > 0 {
                        assert(s[j] == t[j - 1]);
                    }
                }
            },
        }
    }
}

/// The least index is the one that `first_of` gives.
pub proof fn lemma_first_of_is(s: Seq<u8>, a: u8, b: u8, i: int)
    requires
        is_first_of(s, a, b, i),
    ensures
        first_of(s, a, b) == Some(i),
{
    lemma_first_of(s, a, b);
}

/// Where there is no such byte, `first_of` gives `None`.
pub proof fn lemma_first_of_none(s: Seq<u8>, a: u8, b: u8)
    requires
        has_none_of(s, a, b),
    ensures
        first_of(s, a, b) is None,
{
    lemma_first_of(s, a, b);
}

/// Bytes that follow do not move the first occurrence.
pub proof fn lemma_first_of_append(s: Seq<u8>, more: Seq<u8>, a: u8, b: u8)
    ensures
        first_of(s, a, b) is Some ==> first_of(s + more, a, b) == first_of(s, a, b),
        first_of(s, a, b) is None ==> first_of(s + more, a, b) == match first_of(more, a, b) {
            Some(i) => Some(s.len() + i),
            None => None,
        },
{
    lemma_first_of(s, a, b);
    lemma_first_of(more, a, b);
    let t = s + more;
    match first_of(s, a, b) {
        Some(i) => {
            assert(is_first_of(t, a, b, i));
            lemma_first_of_is(t, a, b, i);
        },
        None => {
            match first_of(more, a, b) {
                Some(i) => {
                    assert(t[s.len() + i] == more[i]);
                    assert forall|j: int| 0 <= j < s.len() + i implies t[j] != a && t[j] != b by {
                        if j >= s.len() {
                            assert(t[j] == more[j - s.len()]);
                        }
                    }
                    lemma_first_of_is(t, a, b, s.len() + i);
                },
                None => {
                    assert forall|j: int| 0 <= j < t.len() implies t[j] != a && t[j] != b by {
                        if j >= s.len() {
                            assert(t[j] == more[j - s.len()]);
                        }
                    }
                    lemma_first_of_none(t, a, b);
                },
            }
        },
    }
}

/// `memchr::memchr2`: the least index at which one of the two needles
/// stands in the haystack, or `None` when neither occurs in it.
pub assume_specification[ memchr::memchr2 ](needle1: u8, needle2: u8, haystack: &[u8]) -> (found:
    Option<usize>)
    ensures
        match found {
            Some(i) => is_first_of(haystack@, needle1, needle2, i as int),
            None => has_none_of(haystack@, needle1, needle2),
        },
;

/// The index of the first `needle` in `haystack`.
pub fn find_byte(haystack: &[u8], needle: u8) -> (found: Option<usize>)
    ensures
        match found {
            Some(i) => first_of(haystack@, needle, needle) == Some(i as int),
            None => first_of(haystack@, needle, needle) is None,
        },
{
    let mut i: usize = 0;
    while i < haystack.len()
        invariant
            i <= haystack@.len(),
            forall|j: int| 0 <= j < i ==> haystack@[j] != needle,
        decreases haystack@.len() - i,
    {
        if haystack[i] == needle {
            proof {
                lemma_first_of_is(haystack@, needle, needle, i as int);
            }
            return Some(i);
        }
        i += 1;
    }
    proof {
        lemma_first_of_none(haystack@, needle, needle);
    }
    None
}

/// Whether the two runs of bytes are the same.
pub fn same_bytes(a: &[u8], b: &[u8]) -> (same: bool)
    ensures
        same == (a@ == b@),
{
    if a.len() != b.len() {
        return false;
    }
    let mut i: usize = 0;
    while i < a.len()
        invariant
            a@.len() == b@.len(),
            i <= a@.len(),
            forall|j: int| 0 <= j < i ==> a@[j] == b@[j],
        decreases a@.len() - i,
    {
        if a[i] != b[i] {
            return false;
        }
        i += 1;
    }
    assert(a@ =~= b@);
    true
}

} // verus!
