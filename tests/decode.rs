use book_ticker::config::ParsingConfig;
use book_ticker::extract::{parse_book_ticker, DecodeError};

const MESSAGE: &str = "{\"e\":\"bookTicker\",\"u\":1,\"s\":\"BTCUSDT\",\"b\":\"83604.80\",\"B\":\"10.746\",\"a\":\"83604.90\",\"A\":\"9.514\",\"T\":1744760290967,\"E\":1744760290967}";

fn config(start: usize) -> ParsingConfig {
    ParsingConfig {
        start,
        price_precision: 2,
        volume_precision: 3,
        transaction_time_digits: 13,
    }
}

fn with_precision(price: usize, volume: usize) -> ParsingConfig {
    ParsingConfig {
        start: 39,
        price_precision: price,
        volume_precision: volume,
        transaction_time_digits: 13,
    }
}

fn fraction(n: usize) -> String {
    "0123456789".chars().cycle().take(n).collect()
}

fn message(bid: &str, bid_qty: &str, ask: &str, ask_qty: &str, time: &str) -> String {
    format!(
        "{{\"e\":\"bookTicker\",\"u\":1,\"s\":\"BTCUSDT\",\"b\":\"{bid}\",\"B\":\"{bid_qty}\",\"a\":\"{ask}\",\"A\":\"{ask_qty}\",\"T\":{time},\"E\":1744760290967}}"
    )
}

#[test]
fn decodes_the_sample_quote() {
    let start = MESSAGE.find("b\":").unwrap();
    assert_eq!(start, 39);
    let t = parse_book_ticker(MESSAGE, config(start)).unwrap();
    assert_eq!(t.transaction_time, 1744760290967);
    assert_eq!(t.best_bid_price, "83604.80");
    assert_eq!(t.best_bid_quantity, "10.746");
    assert_eq!(t.best_ask_price, "83604.90");
    assert_eq!(t.best_ask_quantity, "9.514");
}

#[test]
fn owned_copy_keeps_every_field() {
    let t = parse_book_ticker(MESSAGE, config(39)).unwrap();
    let owned = t.to_owned_ticker();
    assert_eq!(owned.transaction_time, 1744760290967);
    assert_eq!(owned.best_bid_price, "83604.80");
    assert_eq!(owned.best_bid_quantity, "10.746");
    assert_eq!(owned.best_ask_price, "83604.90");
    assert_eq!(owned.best_ask_quantity, "9.514");
}

#[test]
fn agrees_with_a_general_json_parser() {
    let cases = [
        message("83604.80", "10.746", "83604.90", "9.514", "1744760290967"),
        message("1.00", "0.001", "2.50", "123456.789", "1000000000000"),
        message(".99", "7.000", "0.01", ".123", "9999999999999"),
    ];
    for text in cases.iter() {
        let t = parse_book_ticker(text, config(39)).unwrap();
        let v: serde_json::Value = serde_json::from_str(text).unwrap();
        assert_eq!(v["b"].as_str().unwrap(), t.best_bid_price);
        assert_eq!(v["B"].as_str().unwrap(), t.best_bid_quantity);
        assert_eq!(v["a"].as_str().unwrap(), t.best_ask_price);
        assert_eq!(v["A"].as_str().unwrap(), t.best_ask_quantity);
        assert_eq!(v["T"].as_u64().unwrap(), t.transaction_time);
    }
}

#[test]
fn every_precision_up_to_eight_decodes() {
    for p in 0..=8usize {
        let price = format!("83604.{}", fraction(p));
        let qty = format!("10.{}", fraction(p));
        let text = message(&price, &qty, &price, &qty, "1744760290967");
        let t = parse_book_ticker(&text, with_precision(p, p)).unwrap();
        assert_eq!(t.best_bid_price, price);
        assert_eq!(t.best_bid_quantity, qty);
        assert_eq!(t.best_ask_price, price);
        assert_eq!(t.best_ask_quantity, qty);
        assert_eq!(t.transaction_time, 1744760290967);
    }
}

#[test]
fn one_fractional_digit_off_is_a_mismatch() {
    for p in 0..=8usize {
        let good_price = format!("83604.{}", fraction(p));
        let good_qty = format!("10.{}", fraction(p));
        let mut offs = vec![p + 1];
        if p > 0 {
            offs.push(p - 1);
        }
        for q in offs {
            let price = format!("83604.{}", fraction(q));
            let qty = format!("10.{}", fraction(q));
            let texts = [
                message(&price, &good_qty, &good_price, &good_qty, "1744760290967"),
                message(&good_price, &qty, &good_price, &good_qty, "1744760290967"),
                message(&good_price, &good_qty, &price, &good_qty, "1744760290967"),
                message(&good_price, &good_qty, &good_price, &qty, "1744760290967"),
            ];
            for text in texts.iter() {
                assert_eq!(
                    parse_book_ticker(text, with_precision(p, p)),
                    Err(DecodeError::SchemaMismatch)
                );
            }
        }
    }
}

#[test]
fn anchor_elsewhere_is_a_mismatch() {
    assert_eq!(parse_book_ticker(MESSAGE, config(38)), Err(DecodeError::SchemaMismatch));
    assert_eq!(parse_book_ticker(MESSAGE, config(40)), Err(DecodeError::SchemaMismatch));
    assert_eq!(parse_book_ticker(MESSAGE, config(usize::MAX)), Err(DecodeError::SchemaMismatch));
}

#[test]
fn missing_decimal_point_is_a_mismatch() {
    let text = message("83604", "10.746", "83604.90", "9.514", "1744760290967");
    assert_eq!(parse_book_ticker(&text, config(39)), Err(DecodeError::SchemaMismatch));
}

#[test]
fn non_digit_in_integer_part_is_a_mismatch() {
    let text = message("836x4.80", "10.746", "83604.90", "9.514", "1744760290967");
    assert_eq!(parse_book_ticker(&text, config(39)), Err(DecodeError::SchemaMismatch));
}

#[test]
fn wrong_key_is_a_mismatch() {
    let text = MESSAGE.replace("\"B\":", "\"Q\":");
    assert_eq!(parse_book_ticker(&text, config(39)), Err(DecodeError::SchemaMismatch));
}

#[test]
fn non_numeric_time_is_a_mismatch() {
    let text = message("83604.80", "10.746", "83604.90", "9.514", "17447602909x7");
    assert_eq!(parse_book_ticker(&text, config(39)), Err(DecodeError::SchemaMismatch));
}

#[test]
fn time_with_another_digit_count_is_a_mismatch() {
    let text = message("83604.80", "10.746", "83604.90", "9.514", "174476029096");
    assert_eq!(parse_book_ticker(&text, config(39)), Err(DecodeError::SchemaMismatch));
    let text = message("83604.80", "10.746", "83604.90", "9.514", "17447602909670");
    assert_eq!(parse_book_ticker(&text, config(39)), Err(DecodeError::SchemaMismatch));
}

#[test]
fn time_at_the_limit_of_u64() {
    let mut c = config(39);
    c.transaction_time_digits = 20;
    let text = message("83604.80", "10.746", "83604.90", "9.514", "18446744073709551615");
    assert_eq!(parse_book_ticker(&text, c).unwrap().transaction_time, u64::MAX);
    let text = message("83604.80", "10.746", "83604.90", "9.514", "18446744073709551616");
    assert_eq!(parse_book_ticker(&text, c), Err(DecodeError::SchemaMismatch));
}

#[test]
fn zero_time_digits_is_a_mismatch() {
    let mut c = config(39);
    c.transaction_time_digits = 0;
    assert_eq!(parse_book_ticker(MESSAGE, c), Err(DecodeError::SchemaMismatch));
}

#[test]
fn message_cut_short_is_a_mismatch() {
    let comma = MESSAGE.find(",\"E\"").unwrap();
    for cut in 0..=comma {
        let text = &MESSAGE[..cut];
        assert_eq!(parse_book_ticker(text, config(39)), Err(DecodeError::SchemaMismatch));
    }
    let t = parse_book_ticker(&MESSAGE[..comma + 1], config(39)).unwrap();
    assert_eq!(t.transaction_time, 1744760290967);
}

#[test]
fn non_ascii_text_elsewhere_is_kept_out() {
    let text = MESSAGE.replace("BTCUSDT", "BTCÜSD");
    let t = parse_book_ticker(&text, config(39)).unwrap();
    assert_eq!(t.best_bid_price, "83604.80");
    assert_eq!(t.best_ask_quantity, "9.514");
}
