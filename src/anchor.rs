//! Where the anchor `b":"` stands in a message: a cached offset, checked on every message
//! and found again by a scan when it no longer holds.
use vstd::prelude::*;
use vstd::string::StringSliceAdditionalSpecFns;

use crate::config::ParsingConfig;
use crate::extract::{decoded_as, parse_book_ticker, BookTicker, DecodeError};
use crate::scan::separator_at;
use crate::schema::{anchor_bytes, bytes_at, layout_of, KEY_BID_PRICE};

verus! {

/// The first position from `i` on where `s` holds the anchor.
pub open spec fn first_anchor_from(s: Seq<u8>, i: int) -> Option<int>
    decreases s.len() - i,
{
    if i < 0 || i + 4 > s.len() {
        None
    } else if bytes_at(s, i, anchor_bytes()) {
        Some(i)
    } else {
        first_anchor_from(s, i + 1)
    }
}

/// The first position where `s` holds the anchor.
pub open spec fn first_anchor(s: Seq<u8>) -> Option<int> {
    first_anchor_from(s, 0)
}

/// Where the anchor of `s` is taken to be when `cached` was its last known place: there,
/// if `s` still holds the anchor there, else wherever it first occurs.
pub open spec fn locate_from(cached: int, s: Seq<u8>) -> Option<int> {
    if bytes_at(s, cached, anchor_bytes()) {
        Some(cached)
    } else {
        first_anchor(s)
    }
}

/// Scans `json` for the first place that holds the anchor `b":"`.
pub fn find_anchor(json: &str) -> (r: Option<usize>)
    ensures
        match r {
            Some(p) => first_anchor(json.spec_bytes()) == Some(p as int),
            None => first_anchor(json.spec_bytes()) is None,
        },
{
    let bytes = json.as_bytes();
    let len = bytes.len();
    let mut i: usize = 0;
    while i < len && len - i >= 4
        invariant
            len == bytes@.len(),
            bytes@ == json.spec_bytes(),
            i <= len,
            first_anchor_from(bytes@, i as int) == first_anchor(bytes@),
        decreases len - i,
    {
        if separator_at(bytes, i, KEY_BID_PRICE, 3, 7) {
            return Some(i);
        }
        i = i + 1;
    }
    None
}

/// The last known offset of the anchor in the feed's messages.
pub struct AnchorCache {
    start: usize,
}

impl View for AnchorCache {
    type V = usize;

    closed spec fn view(&self) -> usize {
        self.start
    }
}

impl AnchorCache {
    /// A cache that expects the anchor at `start`.
    pub fn new(start: usize) -> (r: AnchorCache)
        ensures
            r@ == start,
    {
        AnchorCache { start }
    }

    /// The offset the cache holds.
    pub fn start(&self) -> (r: usize)
        ensures
            r == self@,
    {
        self.start
    }

    /// The anchor's offset in `json`: the cached one where `json` holds the anchor there,
    /// else the first place found by a scan, which the cache then keeps. `None` where `json`
    /// holds no anchor; the cache then stays as it was.
    pub fn locate(&mut self, json: &str) -> (r: Option<usize>)
        ensures
            match r {
                Some(p) => locate_from(old(self)@ as int, json.spec_bytes()) == Some(p as int)
                    && final(self)@ == p,
                None => locate_from(old(self)@ as int, json.spec_bytes()) is None
                    && final(self)@ == old(self)@,
            },
    {
        if separator_at(json.as_bytes(), self.start, KEY_BID_PRICE, 3, 7) {
            return Some(self.start);
        }
        match find_anchor(json) {
            Some(p) => {
                self.start = p;
                Some(p)
            },
            None => None,
        }
    }

    /// Locates the anchor as `locate` does, then decodes `json` with `config` taking the
    /// anchor from there.
    pub fn decode<'a>(&mut self, json: &'a str, config: ParsingConfig) -> (r: Result<
        BookTicker<'a>,
        DecodeError,
    >)
        ensures
            match locate_from(old(self)@ as int, json.spec_bytes()) {
                Some(p) => {
                    &&& final(self)@ == p
                    &&& p <= usize::MAX
                    &&& match r {
                        Ok(t) => decoded_as(json, ParsingConfig { start: p as usize, ..config }, t),
                        Err(e) => e == DecodeError::SchemaMismatch && layout_of(
                            json.spec_bytes(),
                            ParsingConfig { start: p as usize, ..config },
                        ) is None,
                    }
                },
                None => final(self)@ == old(self)@ && r == Err::<BookTicker<'a>, DecodeError>(
                    DecodeError::SchemaMismatch,
                ),
            },
    {
        match self.locate(json) {
            Some(p) => parse_book_ticker(json, ParsingConfig { start: p, ..config }),
            None => Err(DecodeError::SchemaMismatch),
        }
    }
}

/// Two messages whose parts before the anchor are equally long both hold the bid price's
/// key `b` at that offset, and a cache that holds the offset finds the anchor there in both
/// without a scan.
pub proof fn lemma_anchor_stable(prefix1: Seq<u8>, rest1: Seq<u8>, prefix2: Seq<u8>, rest2: Seq<u8>)
    requires
        prefix1.len() == prefix2.len(),
    ensures
        ({
            let start = prefix1.len() as int;
            let s1 = prefix1 + anchor_bytes() + rest1;
            let s2 = prefix2 + anchor_bytes() + rest2;
            &&& s1[start] == KEY_BID_PRICE
            &&& s2[start] == KEY_BID_PRICE
            &&& locate_from(start, s1) == Some(start)
            &&& locate_from(start, s2) == Some(start)
        }),
{
    let start = prefix1.len() as int;
    let s1 = prefix1 + anchor_bytes() + rest1;
    let s2 = prefix2 + anchor_bytes() + rest2;
    assert(s1.subrange(start, start + 4) =~= anchor_bytes());
    assert(s2.subrange(start, start + 4) =~= anchor_bytes());
    assert(s1[start] == anchor_bytes()[0]);
    assert(s2[start] == anchor_bytes()[0]);
}

} // verus!
