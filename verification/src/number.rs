//! Numbers written in base ten.
use vstd::prelude::*;
use crate::format::decimal_digits;
use crate::grammar::{all_digits, decimal_value, is_digit, retry_of};

verus! {

/// The digits of a longer number write a number that is no smaller.
pub proof fn lemma_decimal_value_grows(v: Seq<u8>, k: int)
    requires
        all_digits(v),
        0 <= k <= v.len(),
    ensures
        decimal_value(v.take(k)) <= decimal_value(v),
    decreases v.len() - k,
{
    if k < v.len() {
        let w = v.take(k + 1);
        assert(w.drop_last() =~= v.take(k));
        assert(w.last() == v[k]);
        assert(is_digit(v[k]));
        lemma_decimal_value_grows(v, k + 1);
    } else {
        assert(v.take(k) =~= v);
    }
}

/// Reading gives back the number that was written: the digits of `n` are
/// digits, at least one, and their value is `n`.
pub proof fn lemma_decimal_round_trip(n: nat)
    ensures
        decimal_digits(n).len() > 0,
        all_digits(decimal_digits(n)),
        decimal_value(decimal_digits(n)) == n,
    decreases n,
{
    let digits = decimal_digits(n);
    if n < 10 {
        assert(digits.drop_last() =~= Seq::<u8>::empty());
        assert(digits.last() == (0x30 + n) as u8);
        assert(decimal_value(digits.drop_last()) == 0);
    } else {
        lemma_decimal_round_trip(n / 10);
        let head = decimal_digits(n / 10);
        assert(digits.drop_last() =~= head);
        assert(digits.last() == (0x30 + n % 10) as u8);
        assert forall|i: int| 0 <= i < digits.len() implies is_digit(#[trigger] digits[i]) by {
            if i < head.len() {
                assert(digits[i] == head[i]);
            }
        }
    }
}

/// Reads a number in base ten: `None` unless `digits` is made of one ASCII
/// digit or more and the number fits in 64 bits.
pub fn parse_decimal(digits: &[u8]) -> (number: Option<u64>)
    ensures
        number == retry_of(Some(digits@)),
{
    let n = digits.len();
    if n == 0 {
        return None;
    }
    let mut acc: u64 = 0;
    let mut i: usize = 0;
    while i < n
        invariant
            n == digits@.len(),
            i <= n,
            all_digits(digits@.take(i as int)),
            acc == decimal_value(digits@.take(i as int)),
        decreases n - i,
    {
        let b = digits[i];
        if b < 0x30 || b > 0x39 {
            assert(!is_digit(digits@[i as int]));
            return None;
        }
        let d = (b - 0x30) as u64;
        proof {
            let w = digits@.take(i + 1);
            assert(w.drop_last() =~= digits@.take(i as int));
            assert(w.last() == b);
            assert forall|j: int| 0 <= j < w.len() implies is_digit(#[trigger] w[j]) by {
                if j < i {
                    assert(w[j] == digits@.take(i as int)[j]);
                }
            }
            if all_digits(digits@) {
                lemma_decimal_value_grows(digits@, i + 1);
            } else {
                assert(retry_of(Some(digits@)) is None);
            }
        }
        match acc.checked_mul(10) {
            Some(tens) => match tens.checked_add(d) {
                Some(next) => {
                    acc = next;
                },
                None => {
                    return None;
                },
            },
            None => {
                return None;
            },
        }
        i += 1;
    }
    assert(digits@.take(n as int) =~= digits@);
    Some(acc)
}

} // verus!
