//! Byte-level checks on a message, each against its spec function.
use vstd::prelude::*;

use crate::schema::{
    all_digits, bytes_at, decimal_end, decimal_value, digits_end, field_then, is_digit,
    key_separator, lemma_decimal_value_prefix, time_value, COLON, COMMA, DOT, QUOTE,
};

verus! {

/// Byte `k` of `key_separator(key)`.
fn separator_byte(key: u8, k: usize) -> (r: u8)
    requires
        k < 7,
    ensures
        r == key_separator(key)[k as int],
{
    if k == 0 || k == 2 || k == 4 || k == 6 {
        QUOTE
    } else if k == 1 {
        COMMA
    } else if k == 3 {
        key
    } else {
        COLON
    }
}

/// Whether `bytes` holds bytes `lo..hi` of `key_separator(key)` from `pos` on.
pub fn separator_at(bytes: &[u8], pos: usize, key: u8, lo: usize, hi: usize) -> (r: bool)
    requires
        lo <= hi <= 7,
    ensures
        r == bytes_at(bytes@, pos as int, key_separator(key).subrange(lo as int, hi as int)),
{
    let n: usize = hi - lo;
    if pos > bytes.len() || bytes.len() - pos < n {
        return false;
    }
    let ghost lit = key_separator(key).subrange(lo as int, hi as int);
    let mut k: usize = 0;
    while k < n
        invariant
            n == hi - lo,
            lo <= hi <= 7,
            pos + n <= bytes.len(),
            k <= n,
            lit == key_separator(key).subrange(lo as int, hi as int),
            forall|j: int| 0 <= j < k ==> bytes@[pos + j] == lit[j],
        decreases n - k,
    {
        if bytes[pos + k] != separator_byte(key, lo + k) {
            assert(bytes@.subrange(pos as int, pos + n)[k as int] != lit[k as int]);
            return false;
        }
        k = k + 1;
    }
    assert(bytes@.subrange(pos as int, pos + n) =~= lit);
    true
}

/// The first position from `i` on that does not hold a digit.
pub fn scan_digits(bytes: &[u8], i: usize) -> (r: usize)
    requires
        i <= bytes@.len(),
    ensures
        r as int == digits_end(bytes@, i as int),
{
    let mut j: usize = i;
    while j < bytes.len() && bytes[j] >= 48 && bytes[j] <= 57
        invariant
            i <= j <= bytes@.len(),
            digits_end(bytes@, j as int) == digits_end(bytes@, i as int),
        decreases bytes@.len() - j,
    {
        j = j + 1;
    }
    j
}

/// The closing quote of the quoted decimal whose text starts at `start`.
pub fn decimal_field_end(bytes: &[u8], start: usize, precision: usize) -> (r: Option<usize>)
    requires
        start <= bytes@.len(),
    ensures
        match r {
            Some(e) => decimal_end(bytes@, start as int, precision as nat) == Some(e as int),
            None => decimal_end(bytes@, start as int, precision as nat) is None,
        },
{
    let dot = scan_digits(bytes, start);
    if dot >= bytes.len() || bytes[dot] != DOT {
        return None;
    }
    if precision >= bytes.len() - dot - 1 {
        return None;
    }
    let end = dot + precision + 1;
    if bytes[end] != QUOTE {
        return None;
    }
    Some(end)
}

/// The closing quote of the quoted decimal that starts at `start`, when bytes `lo..hi` of
/// `key_separator(key)` follow it from there on.
pub fn field_then_at(
    bytes: &[u8],
    start: usize,
    precision: usize,
    key: u8,
    lo: usize,
    hi: usize,
) -> (r: Option<usize>)
    requires
        start <= bytes@.len(),
        lo <= hi <= 7,
    ensures
        ({
            let sep = key_separator(key).subrange(lo as int, hi as int);
            match r {
                Some(e) => field_then(bytes@, start as int, precision as nat, sep) == Some(
                    e as int,
                ),
                None => field_then(bytes@, start as int, precision as nat, sep) is None,
            }
        }),
{
    match decimal_field_end(bytes, start, precision) {
        Some(end) => if separator_at(bytes, end, key, lo, hi) {
            Some(end)
        } else {
            None
        },
        None => None,
    }
}

/// The transaction time whose `n` digits start at `t0`.
pub fn parse_time(bytes: &[u8], t0: usize, n: usize) -> (r: Option<u64>)
    ensures
        match r {
            Some(v) => time_value(bytes@, t0 as int, n as nat) == Some(v as nat),
            None => time_value(bytes@, t0 as int, n as nat) is None,
        },
{
    if n == 0 || t0 > bytes.len() || bytes.len() - t0 <= n {
        return None;
    }
    let t1: usize = t0 + n;
    let ghost digits = bytes@.subrange(t0 as int, t1 as int);
    let mut acc: u64 = 0;
    let mut i: usize = t0;
    while i < t1
        invariant
            t0 <= i <= t1,
            t1 == t0 + n,
            t1 < bytes@.len(),
            digits == bytes@.subrange(t0 as int, t1 as int),
            all_digits(digits.take(i - t0)),
            acc as nat == decimal_value(digits.take(i - t0)),
        decreases t1 - i,
    {
        let d = bytes[i];
        if d < 48 || d > 57 {
            assert(!is_digit(digits[i - t0]));
            assert(!all_digits(digits));
            return None;
        }
        let dv: u64 = (d - 48) as u64;
        let ghost next = digits.take(i - t0 + 1);
        assert(next.drop_last() =~= digits.take(i - t0));
        assert(next.last() == d);
        assert(decimal_value(next) == acc * 10 + dv);
        assert(all_digits(next)) by {
            assert forall|j: int| 0 <= j < next.len() implies is_digit(#[trigger] next[j]) by {
                if j < next.len() - 1 {
                    assert(next[j] == digits.take(i - t0)[j]);
                }
            }
        }
        match acc.checked_mul(10) {
            None => {
                proof {
                    if all_digits(digits) {
                        lemma_decimal_value_prefix(digits, i - t0 + 1);
                    }
                }
                return None;
            },
            Some(m) => match m.checked_add(dv) {
                None => {
                    proof {
                        if all_digits(digits) {
                            lemma_decimal_value_prefix(digits, i - t0 + 1);
                        }
                    }
                    return None;
                },
                Some(v) => {
                    acc = v;
                },
            },
        }
        i = i + 1;
    }
    assert(digits.take(n as int) =~= digits);
    if bytes[t1] != COMMA {
        return None;
    }
    Some(acc)
}

} // verus!
