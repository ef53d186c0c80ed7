//! Messages built from their pieces, and what the layout makes of them.
use vstd::prelude::*;

use crate::config::ParsingConfig;
use crate::schema::{
    all_digits, anchor_bytes, bytes_at, decimal_end, decimal_value, digits_end, field_then,
    is_digit, key_separator, layout_of, time_separator, time_value, COMMA, DOT, KEY_ASK_PRICE,
    KEY_ASK_QTY, KEY_BID_QTY, QUOTE,
};

verus! {

/// `d` is the text of a decimal with `precision` fractional digits: digits, a dot, and
/// exactly `precision` digits.
pub open spec fn is_decimal_text(d: Seq<u8>, precision: nat) -> bool {
    let k = d.len() - precision - 1;
    &&& d.len() >= precision + 1
    &&& all_digits(d.take(k))
    &&& d[k] == DOT
    &&& all_digits(d.skip(k + 1))
}

/// The message that carries the given field texts in the feed's layout, after `prefix` and
/// before `suffix`.
#[verifier::opaque]
pub open spec fn compose_message(
    prefix: Seq<u8>,
    bid_price: Seq<u8>,
    bid_qty: Seq<u8>,
    ask_price: Seq<u8>,
    ask_qty: Seq<u8>,
    time: Seq<u8>,
    suffix: Seq<u8>,
) -> Seq<u8> {
    prefix + anchor_bytes() + bid_price + key_separator(KEY_BID_QTY) + bid_qty + key_separator(
        KEY_ASK_PRICE,
    ) + ask_price + key_separator(KEY_ASK_QTY) + ask_qty + time_separator() + time + suffix
}

/// What `a` holds at a place, `a + b` holds there too.
proof fn lemma_lift(a: Seq<u8>, b: Seq<u8>)
    ensures
        forall|i: int, p: Seq<u8>| #[trigger] bytes_at(a, i, p) ==> bytes_at(a + b, i, p),
{
    assert forall|i: int, p: Seq<u8>| #[trigger] bytes_at(a, i, p) implies bytes_at(
        a + b,
        i,
        p,
    ) by {
        assert((a + b).subrange(i, i + p.len()) =~= a.subrange(i, i + p.len()));
    }
}

/// `a + b` holds `b` right after `a`.
proof fn lemma_tail(a: Seq<u8>, b: Seq<u8>)
    ensures
        bytes_at(a + b, a.len() as int, b),
{
    assert((a + b).subrange(a.len() as int, (a.len() + b.len()) as int) =~= b);
}

/// Appending `b` keeps what `a` holds, and puts `b` after it.
proof fn lemma_extend(a: Seq<u8>, b: Seq<u8>)
    ensures
        forall|i: int, p: Seq<u8>| #[trigger] bytes_at(a, i, p) ==> bytes_at(a + b, i, p),
        bytes_at(a + b, a.len() as int, b),
{
    lemma_lift(a, b);
    lemma_tail(a, b);
}

/// A run of digits from `i` up to a non-digit (or the end) at `k` ends there.
proof fn lemma_digit_run(s: Seq<u8>, i: int, k: int)
    requires
        0 <= i <= k <= s.len(),
        forall|j: int| i <= j < k ==> is_digit(#[trigger] s[j]),
        k < s.len() ==> !is_digit(s[k]),
    ensures
        digits_end(s, i) == k,
    decreases k - i,
{
    if i < k {
        lemma_digit_run(s, i + 1, k);
    }
}

/// A decimal text at `start` followed by a separator that opens with a quote is read as one
/// field, up to that quote.
pub proof fn lemma_decimal_field(s: Seq<u8>, start: int, d: Seq<u8>, precision: nat, sep: Seq<u8>)
    requires
        is_decimal_text(d, precision),
        bytes_at(s, start, d),
        bytes_at(s, start + d.len(), sep),
        sep.len() > 0,
        sep[0] == QUOTE,
    ensures
        field_then(s, start, precision, sep) == Some(start + d.len()),
{
    let k = d.len() - precision - 1;
    assert forall|j: int| start <= j < start + k implies is_digit(#[trigger] s[j]) by {
        assert(s[j] == s.subrange(start, start + d.len())[j - start]);
        assert(d.take(k)[j - start] == d[j - start]);
    }
    assert(s[start + k] == s.subrange(start, start + d.len())[k]);
    lemma_digit_run(s, start, start + k);
    assert(s[start + d.len()] == s.subrange(start + d.len(), start + d.len() + sep.len())[0]);
}

/// Where each piece of a composed message stands in it.
proof fn lemma_composed_pieces(
    prefix: Seq<u8>,
    bid_price: Seq<u8>,
    bid_qty: Seq<u8>,
    ask_price: Seq<u8>,
    ask_qty: Seq<u8>,
    time: Seq<u8>,
    suffix: Seq<u8>,
)
    requires
        0 < suffix.len(),
    ensures
        ({
            let m = compose_message(prefix, bid_price, bid_qty, ask_price, ask_qty, time, suffix);
            let o1 = prefix.len() as int + 4;
            let o3 = o1 + bid_price.len() + 7;
            let o5 = o3 + bid_qty.len() + 7;
            let o7 = o5 + ask_price.len() + 7;
            let o9 = o7 + ask_qty.len() + 6;
            &&& bytes_at(m, prefix.len() as int, anchor_bytes())
            &&& bytes_at(m, o1, bid_price)
            &&& bytes_at(m, o1 + bid_price.len(), key_separator(KEY_BID_QTY))
            &&& bytes_at(m, o3, bid_qty)
            &&& bytes_at(m, o3 + bid_qty.len(), key_separator(KEY_ASK_PRICE))
            &&& bytes_at(m, o5, ask_price)
            &&& bytes_at(m, o5 + ask_price.len(), key_separator(KEY_ASK_QTY))
            &&& bytes_at(m, o7, ask_qty)
            &&& bytes_at(m, o7 + ask_qty.len(), time_separator())
            &&& bytes_at(m, o9, time)
            &&& o9 + time.len() < m.len()
            &&& m[o9 + time.len()] == suffix[0]
        }),
{
    reveal(compose_message);
    let m1 = prefix + anchor_bytes();
    let m2 = m1 + bid_price;
    let m3 = m2 + key_separator(KEY_BID_QTY);
    let m4 = m3 + bid_qty;
    let m5 = m4 + key_separator(KEY_ASK_PRICE);
    let m6 = m5 + ask_price;
    let m7 = m6 + key_separator(KEY_ASK_QTY);
    let m8 = m7 + ask_qty;
    let m9 = m8 + time_separator();
    let m10 = m9 + time;
    lemma_tail(prefix, anchor_bytes());
    lemma_extend(m1, bid_price);
    lemma_extend(m2, key_separator(KEY_BID_QTY));
    lemma_extend(m3, bid_qty);
    lemma_extend(m4, key_separator(KEY_ASK_PRICE));
    lemma_extend(m5, ask_price);
    lemma_extend(m6, key_separator(KEY_ASK_QTY));
    lemma_extend(m7, ask_qty);
    lemma_extend(m8, time_separator());
    lemma_extend(m9, time);
    lemma_lift(m10, suffix);
}

/// A message built from conforming pieces, with its prefix as long as `config.start` says
/// and a comma after the time, decodes to exactly those pieces: the field texts byte for
/// byte and the time's value.
pub proof fn lemma_conforming_message_decodes(
    prefix: Seq<u8>,
    bid_price: Seq<u8>,
    bid_qty: Seq<u8>,
    ask_price: Seq<u8>,
    ask_qty: Seq<u8>,
    time: Seq<u8>,
    suffix: Seq<u8>,
    config: ParsingConfig,
)
    requires
        prefix.len() == config.start,
        is_decimal_text(bid_price, config.price_precision as nat),
        is_decimal_text(bid_qty, config.volume_precision as nat),
        is_decimal_text(ask_price, config.price_precision as nat),
        is_decimal_text(ask_qty, config.volume_precision as nat),
        time.len() == config.transaction_time_digits,
        0 < time.len(),
        all_digits(time),
        decimal_value(time) <= u64::MAX,
        0 < suffix.len(),
        suffix[0] == COMMA,
    ensures
        ({
            let m = compose_message(prefix, bid_price, bid_qty, ask_price, ask_qty, time, suffix);
            match layout_of(m, config) {
                Some(l) => {
                    &&& m.subrange(l.bid_price.0, l.bid_price.1) == bid_price
                    &&& m.subrange(l.bid_qty.0, l.bid_qty.1) == bid_qty
                    &&& m.subrange(l.ask_price.0, l.ask_price.1) == ask_price
                    &&& m.subrange(l.ask_qty.0, l.ask_qty.1) == ask_qty
                    &&& l.time == decimal_value(time)
                },
                None => false,
            }
        }),
{
    let m = compose_message(prefix, bid_price, bid_qty, ask_price, ask_qty, time, suffix);
    lemma_composed_pieces(prefix, bid_price, bid_qty, ask_price, ask_qty, time, suffix);
    let o1 = prefix.len() as int + 4;
    let o3 = o1 + bid_price.len() + 7;
    let o5 = o3 + bid_qty.len() + 7;
    let o7 = o5 + ask_price.len() + 7;
    let o9 = o7 + ask_qty.len() + 6;
    let pp = config.price_precision as nat;
    let vp = config.volume_precision as nat;
    lemma_decimal_field(m, o1, bid_price, pp, key_separator(KEY_BID_QTY));
    lemma_decimal_field(m, o3, bid_qty, vp, key_separator(KEY_ASK_PRICE));
    lemma_decimal_field(m, o5, ask_price, pp, key_separator(KEY_ASK_QTY));
    lemma_decimal_field(m, o7, ask_qty, vp, time_separator());
    assert(m.subrange(o9, o9 + time.len()) == time);
    assert(time_value(m, o9, config.transaction_time_digits as nat) == Some(decimal_value(time)));
}

/// A decimal whose fraction has one digit more, or one fewer, than `precision`, and which
/// is followed by `",`, does not close where the layout expects its quote.
pub proof fn lemma_fraction_off_by_one(
    s: Seq<u8>,
    start: int,
    int_part: Seq<u8>,
    frac: Seq<u8>,
    precision: nat,
)
    requires
        all_digits(int_part),
        all_digits(frac),
        frac.len() == precision + 1 || frac.len() + 1 == precision,
        bytes_at(s, start, int_part + seq![DOT] + frac + seq![QUOTE, COMMA]),
    ensures
        decimal_end(s, start, precision) is None,
{
    let d = int_part + seq![DOT] + frac + seq![QUOTE, COMMA];
    let dot = start + int_part.len();
    assert forall|j: int| start <= j < dot implies is_digit(#[trigger] s[j]) by {
        assert(s[j] == s.subrange(start, start + d.len())[j - start]);
        assert(d[j - start] == int_part[j - start]);
    }
    assert(s[dot] == s.subrange(start, start + d.len())[dot - start]);
    assert(d[dot - start] == DOT);
    lemma_digit_run(s, start, dot);
    let end = dot + precision + 1;
    assert(s[end] == s.subrange(start, start + d.len())[end - start]);
    if frac.len() == precision + 1 {
        assert(d[end - start] == frac[precision as int]);
    } else {
        assert(d[end - start] == COMMA);
    }
}

/// A message whose bid price has one fractional digit more, or one fewer, than
/// `config.price_precision` is a mismatch.
pub proof fn lemma_price_digit_count_mismatch(
    prefix: Seq<u8>,
    int_part: Seq<u8>,
    frac: Seq<u8>,
    rest: Seq<u8>,
    config: ParsingConfig,
)
    requires
        prefix.len() == config.start,
        all_digits(int_part),
        all_digits(frac),
        frac.len() == config.price_precision + 1 || frac.len() + 1 == config.price_precision,
    ensures
        layout_of(
            prefix + anchor_bytes() + int_part + seq![DOT] + frac + key_separator(KEY_BID_QTY)
                + rest,
            config,
        ) is None,
{
    let d = int_part + seq![DOT] + frac + seq![QUOTE, COMMA];
    let m1 = prefix + anchor_bytes();
    let m2 = m1 + int_part + seq![DOT] + frac;
    let m = m2 + key_separator(KEY_BID_QTY) + rest;
    assert(m.subrange(m1.len() as int, (m1.len() + d.len()) as int) =~= d);
    lemma_fraction_off_by_one(m, m1.len() as int, int_part, frac, config.price_precision as nat);
}

} // verus!
