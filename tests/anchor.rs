use book_ticker::anchor::{find_anchor, AnchorCache};
use book_ticker::config::ParsingConfig;
use book_ticker::extract::DecodeError;

const MESSAGE: &str = "{\"e\":\"bookTicker\",\"u\":1,\"s\":\"BTCUSDT\",\"b\":\"83604.80\",\"B\":\"10.746\",\"a\":\"83604.90\",\"A\":\"9.514\",\"T\":1744760290967,\"E\":1744760290967}";

const LONGER: &str = "{\"e\":\"bookTicker\",\"u\":7283946601071,\"s\":\"BTCUSDT\",\"b\":\"83604.80\",\"B\":\"10.746\",\"a\":\"83604.90\",\"A\":\"9.514\",\"T\":1744760290967,\"E\":1744760290967}";

fn config() -> ParsingConfig {
    ParsingConfig {
        start: 0,
        price_precision: 2,
        volume_precision: 3,
        transaction_time_digits: 13,
    }
}

#[test]
fn scan_finds_the_first_anchor() {
    assert_eq!(find_anchor(MESSAGE), Some(39));
    assert_eq!(find_anchor(LONGER), Some(51));
    assert_eq!(find_anchor("b\":\""), Some(0));
    assert_eq!(find_anchor("b\":"), None);
    assert_eq!(find_anchor(""), None);
    assert_eq!(find_anchor("xb\":\"b\":\""), Some(1));
}

#[test]
fn equal_prefix_lengths_keep_the_anchor_byte() {
    let other = MESSAGE.replace("BTCUSDT", "ETHUSDT").replace("83604.80", "1.00");
    assert_eq!(MESSAGE.as_bytes()[39], b'b');
    assert_eq!(other.as_bytes()[39], b'b');
    let mut cache = AnchorCache::new(39);
    assert_eq!(cache.locate(MESSAGE), Some(39));
    assert_eq!(cache.locate(&other), Some(39));
    assert_eq!(cache.start(), 39);
}

#[test]
fn drifted_anchor_is_found_again_and_kept() {
    let mut cache = AnchorCache::new(39);
    assert_eq!(cache.locate(LONGER), Some(51));
    assert_eq!(cache.start(), 51);
    assert_eq!(cache.locate(LONGER), Some(51));
    assert_eq!(cache.locate(MESSAGE), Some(39));
    assert_eq!(cache.start(), 39);
}

#[test]
fn no_anchor_leaves_the_cache_alone() {
    let mut cache = AnchorCache::new(39);
    assert_eq!(cache.locate("{\"e\":\"trade\"}"), None);
    assert_eq!(cache.start(), 39);
}

#[test]
fn cache_decodes_across_drift() {
    let mut cache = AnchorCache::new(39);
    let t = cache.decode(LONGER, config()).unwrap();
    assert_eq!(t.best_bid_price, "83604.80");
    assert_eq!(t.transaction_time, 1744760290967);
    assert_eq!(cache.start(), 51);
    let t = cache.decode(MESSAGE, config()).unwrap();
    assert_eq!(t.best_ask_quantity, "9.514");
    assert_eq!(cache.start(), 39);
    assert_eq!(cache.decode("{}", config()), Err(DecodeError::SchemaMismatch));
    assert_eq!(cache.start(), 39);
}
