use vstd::prelude::*;

verus! {

/// The byte layout of the feed's messages. All of it changes very rarely: it is set once
/// when a session starts.
#[derive(Clone, Copy, Debug)]
pub struct ParsingConfig {
    /// Position of the `b` that names the bid price, as in `"b":"`.
    pub start: usize,
    /// How many fractional digits the price values carry.
    pub price_precision: usize,
    /// How many fractional digits the quantity values carry.
    pub volume_precision: usize,
    /// How many digits the transaction time has.
    pub transaction_time_digits: usize,
}

} // verus!
