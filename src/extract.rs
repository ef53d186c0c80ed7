//! The fixed-layout extractor: one forward pass over a message, no allocation.
use vstd::prelude::*;
use vstd::string::StringSliceAdditionalSpecFns;
use vstd::utf8::{encode_utf8_valid_utf8, is_char_boundary_iff_not_is_continuation_byte};

use crate::config::ParsingConfig;
use crate::scan::{field_then_at, parse_time, separator_at};
use crate::schema::{
    key_separator, layout_of, lemma_decimal_bounds, KEY_ASK_PRICE, KEY_ASK_QTY, KEY_BID_PRICE,
    KEY_BID_QTY,
    KEY_TIME,
};

verus! {

/// A decoded quote. The four text fields borrow from the message they were read from.
#[derive(Debug, PartialEq, Eq)]
pub struct BookTicker<'a> {
    pub transaction_time: u64,
    pub best_bid_price: &'a str,
    pub best_bid_quantity: &'a str,
    pub best_ask_price: &'a str,
    pub best_ask_quantity: &'a str,
}

/// A decoded quote that owns its text, for use after the message is gone.
#[derive(Debug, PartialEq, Eq)]
pub struct BookTickerOwned {
    pub transaction_time: u64,
    pub best_bid_price: String,
    pub best_bid_quantity: String,
    pub best_ask_price: String,
    pub best_ask_quantity: String,
}

impl<'a> BookTicker<'a> {
    /// Copies each text field into a string of its own.
    pub fn to_owned_ticker(&self) -> (r: BookTickerOwned)
        ensures
            r.transaction_time == self.transaction_time,
            r.best_bid_price@ == self.best_bid_price@,
            r.best_bid_quantity@ == self.best_bid_quantity@,
            r.best_ask_price@ == self.best_ask_price@,
            r.best_ask_quantity@ == self.best_ask_quantity@,
    {
        BookTickerOwned {
            transaction_time: self.transaction_time,
            best_bid_price: self.best_bid_price.to_owned(),
            best_bid_quantity: self.best_bid_quantity.to_owned(),
            best_ask_price: self.best_ask_price.to_owned(),
            best_ask_quantity: self.best_ask_quantity.to_owned(),
        }
    }
}

/// Why a message could not be decoded.
#[derive(Clone, Copy, Debug, PartialEq, Eq)]
pub enum DecodeError {
    /// The message does not follow the fixed layout that the extractor assumes.
    SchemaMismatch,
}

/// `t` holds what `json` holds where `layout_of` places the fields.
pub open spec fn decoded_as(json: &str, config: ParsingConfig, t: BookTicker) -> bool {
    let s = json.spec_bytes();
    match layout_of(s, config) {
        Some(l) => {
            &&& t.transaction_time == l.time
            &&& t.best_bid_price.spec_bytes() == s.subrange(l.bid_price.0, l.bid_price.1)
            &&& t.best_bid_quantity.spec_bytes() == s.subrange(l.bid_qty.0, l.bid_qty.1)
            &&& t.best_ask_price.spec_bytes() == s.subrange(l.ask_price.0, l.ask_price.1)
            &&& t.best_ask_quantity.spec_bytes() == s.subrange(l.ask_qty.0, l.ask_qty.1)
        },
        None => false,
    }
}

/// The bytes `from..to` of `json`, where both ends hold ASCII bytes.
fn byte_slice<'a>(json: &'a str, from: usize, to: usize) -> (r: &'a str)
    requires
        from <= to < json.spec_bytes().len(),
        json.spec_bytes()[from as int] < 128,
        json.spec_bytes()[to as int] < 128,
    ensures
        r.spec_bytes() == json.spec_bytes().subrange(from as int, to as int),
{
    proof {
        encode_utf8_valid_utf8(json@);
        is_char_boundary_iff_not_is_continuation_byte(json.spec_bytes(), from as int);
    }
    let (_, rest) = json.split_at(from);
    proof {
        encode_utf8_valid_utf8(rest@);
        assert(rest.spec_bytes()[to - from] == json.spec_bytes()[to as int]);
        is_char_boundary_iff_not_is_continuation_byte(rest.spec_bytes(), to - from);
    }
    let (r, _) = rest.split_at(to - from);
    proof {
        assert(r.spec_bytes() =~= json.spec_bytes().subrange(from as int, to as int));
    }
    r
}

/// Decodes one message of the fixed layout that `config` describes: the anchor `b":"` at
/// `config.start`, the bid price, bid quantity, ask price and ask quantity as quoted
/// decimals with the configured number of fractional digits, each joined to the next by
/// its separator, then `","T":` and the transaction time's digits, followed by a comma.
/// Every other outcome is a `SchemaMismatch`.
pub fn parse_book_ticker<'a>(json: &'a str, config: ParsingConfig) -> (r: Result<
    BookTicker<'a>,
    DecodeError,
>)
    ensures
        match r {
            Ok(t) => decoded_as(json, config, t),
            Err(e) => {
                &&& e == DecodeError::SchemaMismatch
                &&& layout_of(json.spec_bytes(), config) is None
            },
        },
{
    let bytes = json.as_bytes();
    let ghost s = json.spec_bytes();
    let len = bytes.len();
    proof {
        assert(key_separator(KEY_BID_QTY).subrange(0, 7) =~= key_separator(KEY_BID_QTY));
        assert(key_separator(KEY_ASK_PRICE).subrange(0, 7) =~= key_separator(KEY_ASK_PRICE));
        assert(key_separator(KEY_ASK_QTY).subrange(0, 7) =~= key_separator(KEY_ASK_QTY));
    }
    if !separator_at(bytes, config.start, KEY_BID_PRICE, 3, 7) {
        return Err(DecodeError::SchemaMismatch);
    }
    let b0 = config.start + 4;
    let b1 = match field_then_at(bytes, b0, config.price_precision, KEY_BID_QTY, 0, 7) {
        Some(e) => e,
        None => return Err(DecodeError::SchemaMismatch),
    };
    proof {
        lemma_decimal_bounds(s, b0 as int, config.price_precision as nat);
    }
    let q0 = b1 + 7;
    let q1 = match field_then_at(bytes, q0, config.volume_precision, KEY_ASK_PRICE, 0, 7) {
        Some(e) => e,
        None => return Err(DecodeError::SchemaMismatch),
    };
    proof {
        lemma_decimal_bounds(s, q0 as int, config.volume_precision as nat);
    }
    let a0 = q1 + 7;
    let a1 = match field_then_at(bytes, a0, config.price_precision, KEY_ASK_QTY, 0, 7) {
        Some(e) => e,
        None => return Err(DecodeError::SchemaMismatch),
    };
    proof {
        lemma_decimal_bounds(s, a0 as int, config.price_precision as nat);
    }
    let v0 = a1 + 7;
    let v1 = match field_then_at(bytes, v0, config.volume_precision, KEY_TIME, 0, 6) {
        Some(e) => e,
        None => return Err(DecodeError::SchemaMismatch),
    };
    proof {
        lemma_decimal_bounds(s, v0 as int, config.volume_precision as nat);
    }
    let transaction_time = match parse_time(bytes, v1 + 6, config.transaction_time_digits) {
        Some(t) => t,
        None => return Err(DecodeError::SchemaMismatch),
    };
    Ok(
        BookTicker {
            transaction_time,
            best_bid_price: byte_slice(json, b0, b1),
            best_bid_quantity: byte_slice(json, q0, q1),
            best_ask_price: byte_slice(json, a0, a1),
            best_ask_quantity: byte_slice(json, v0, v1),
        },
    )
}

} // verus!
