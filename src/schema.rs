//! The message layout as mathematics: which bytes a conforming message holds where.
use vstd::prelude::*;

use crate::config::ParsingConfig;

verus! {

pub const QUOTE: u8 = 34;

pub const COMMA: u8 = 44;

pub const COLON: u8 = 58;

pub const DOT: u8 = 46;

/// `b`: the key of the best bid price, and the anchor byte.
pub const KEY_BID_PRICE: u8 = 98;

/// `B`: the key of the best bid quantity.
pub const KEY_BID_QTY: u8 = 66;

/// `a`: the key of the best ask price.
pub const KEY_ASK_PRICE: u8 = 97;

/// `A`: the key of the best ask quantity.
pub const KEY_ASK_QTY: u8 = 65;

/// `T`: the key of the transaction time.
pub const KEY_TIME: u8 = 84;

pub open spec fn is_digit(b: u8) -> bool {
    48 <= b <= 57
}

pub open spec fn all_digits(d: Seq<u8>) -> bool {
    forall|i: int| 0 <= i < d.len() ==> is_digit(#[trigger] d[i])
}

/// The number that a run of decimal digits spells.
pub open spec fn decimal_value(d: Seq<u8>) -> nat
    decreases d.len(),
{
    if d.len() == 0 {
        0
    } else {
        decimal_value(d.drop_last()) * 10 + (d.last() - 48) as nat
    }
}

/// `","K":"`: a value's closing quote, the comma, and the next quoted key `K` up to the
/// opening quote of its value.
pub open spec fn key_separator(key: u8) -> Seq<u8> {
    seq![QUOTE, COMMA, QUOTE, key, QUOTE, COLON, QUOTE]
}

/// `b":"`: the bid price's key and the opening quote of its value.
pub open spec fn anchor_bytes() -> Seq<u8> {
    key_separator(KEY_BID_PRICE).subrange(3, 7)
}

/// `","T":`: the last quote, and the key of the transaction time, whose value is bare.
pub open spec fn time_separator() -> Seq<u8> {
    key_separator(KEY_TIME).subrange(0, 6)
}

/// `s` holds `lit` from `pos` on.
pub open spec fn bytes_at(s: Seq<u8>, pos: int, lit: Seq<u8>) -> bool {
    0 <= pos && pos + lit.len() <= s.len() && s.subrange(pos, pos + lit.len()) == lit
}

/// The first position from `i` on that does not hold a digit.
pub open spec fn digits_end(s: Seq<u8>, i: int) -> int
    decreases s.len() - i,
{
    if 0 <= i < s.len() && is_digit(s[i]) {
        digits_end(s, i + 1)
    } else {
        i
    }
}

/// Where the quoted decimal whose text starts at `start` closes: a run of digits, a dot,
/// `precision` bytes of fraction, and then the closing quote, whose position is returned.
pub open spec fn decimal_end(s: Seq<u8>, start: int, precision: nat) -> Option<int> {
    let dot = digits_end(s, start);
    let end = dot + precision + 1;
    if 0 <= start && dot < s.len() && s[dot] == DOT && end < s.len() && s[end] == QUOTE {
        Some(end)
    } else {
        None
    }
}

/// Where the quoted decimal that starts at `start` closes, when `sep` follows it from its
/// closing quote on.
pub open spec fn field_then(s: Seq<u8>, start: int, precision: nat, sep: Seq<u8>) -> Option<int> {
    match decimal_end(s, start, precision) {
        Some(end) => if bytes_at(s, end, sep) {
            Some(end)
        } else {
            None
        },
        None => None,
    }
}

/// Where the fields of a conforming message stand: each text field as the range from its
/// first byte up to its closing quote, and the transaction time as its value.
pub struct TickLayout {
    pub bid_price: (int, int),
    pub bid_qty: (int, int),
    pub ask_price: (int, int),
    pub ask_qty: (int, int),
    pub time: nat,
}

/// The transaction time's value, when its digits start at `t0`, number `n`, fit in 64 bits
/// and are followed by a comma.
pub open spec fn time_value(s: Seq<u8>, t0: int, n: nat) -> Option<nat> {
    let t1 = t0 + n;
    if 0 < n && 0 <= t0 && t1 < s.len() && all_digits(s.subrange(t0, t1)) && s[t1] == COMMA
        && decimal_value(s.subrange(t0, t1)) <= u64::MAX {
        Some(decimal_value(s.subrange(t0, t1)))
    } else {
        None
    }
}

/// The layout of `s` under `c`, or `None` where `s` breaks it: the anchor `b":"` at
/// `c.start`, four quoted decimals joined by their separators, and the transaction time's
/// digits followed by a comma.
pub open spec fn layout_of(s: Seq<u8>, c: ParsingConfig) -> Option<TickLayout> {
    let pp = c.price_precision as nat;
    let vp = c.volume_precision as nat;
    let b0 = c.start + 4;
    if !bytes_at(s, c.start as int, anchor_bytes()) {
        None
    } else {
        match field_then(s, b0, pp, key_separator(KEY_BID_QTY)) {
            None => None,
            Some(b1) => match field_then(s, b1 + 7, vp, key_separator(KEY_ASK_PRICE)) {
                None => None,
                Some(q1) => match field_then(s, q1 + 7, pp, key_separator(KEY_ASK_QTY)) {
                    None => None,
                    Some(a1) => match field_then(s, a1 + 7, vp, time_separator()) {
                        None => None,
                        Some(v1) => match time_value(s, v1 + 6, c.transaction_time_digits as nat) {
                            None => None,
                            Some(t) => Some(
                                TickLayout {
                                    bid_price: (b0, b1),
                                    bid_qty: (b1 + 7, q1),
                                    ask_price: (q1 + 7, a1),
                                    ask_qty: (a1 + 7, v1),
                                    time: t,
                                },
                            ),
                        },
                    },
                },
            },
        }
    }
}

/// A run of digits spells at least as much as any of its prefixes.
pub proof fn lemma_decimal_value_prefix(d: Seq<u8>, k: int)
    requires
        all_digits(d),
        0 <= k <= d.len(),
    ensures
        decimal_value(d.take(k)) <= decimal_value(d),
    decreases d.len(),
{
    if k < d.len() {
        let p = d.drop_last();
        assert(all_digits(p)) by {
            assert forall|i: int| 0 <= i < p.len() implies is_digit(#[trigger] p[i]) by {
                assert(p[i] == d[i]);
            }
        }
        lemma_decimal_value_prefix(p, k);
        assert(p.take(k) =~= d.take(k));
    }
    assert(d.take(d.len() as int) =~= d);
}

/// The digit scan stays within the message and moves only forward.
pub proof fn lemma_digits_end_bounds(s: Seq<u8>, i: int)
    requires
        0 <= i <= s.len(),
    ensures
        i <= digits_end(s, i) <= s.len(),
    decreases s.len() - i,
{
    if i < s.len() && is_digit(s[i]) {
        lemma_digits_end_bounds(s, i + 1);
    }
}

/// A quoted decimal that closes starts with a digit or its dot, and closes after it starts.
pub proof fn lemma_decimal_bounds(s: Seq<u8>, start: int, precision: nat)
    requires
        0 <= start <= s.len(),
        decimal_end(s, start, precision) is Some,
    ensures
        start < s.len(),
        s[start] < 128,
        start < decimal_end(s, start, precision)->0 < s.len(),
        s[decimal_end(s, start, precision)->0] == QUOTE,
{
    lemma_digits_end_bounds(s, start);
}

} // verus!
