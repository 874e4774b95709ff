use quote_stream::quote::{
    draft_quote, draft_quote_at, draw_volume, encode_quote, format_quote_line, parse_quote_line, quote_volume,
    QuoteGenerator,
};
use quote_stream::ticker::Ticker;

#[test]
fn formats_a_quote_line() {
    assert_eq!(format_quote_line("AAPL", "123.45", 1500, 1700000000000), "AAPL|123.45|1500|1700000000000");
    assert_eq!(format_quote_line("", "", 0, 0), "||0|0");
}

#[test]
fn bytes_are_the_line_in_utf8() {
    let line = format_quote_line("ÄPL", "1e300", 42, u64::MAX);
    assert_eq!(encode_quote("ÄPL", "1e300", 42, u64::MAX), line.as_bytes().to_vec());
    assert_eq!(encode_quote("MSFT", "0.5", 7, 9), b"MSFT|0.5|7|9".to_vec());
}

#[test]
fn reads_a_quote_line() {
    let q = parse_quote_line("TSLA|250.5|1234|1700000000123").unwrap();
    assert_eq!(q.ticker, "TSLA");
    assert_eq!(q.price_text, "250.5");
    assert_eq!(q.volume, 1234);
    assert_eq!(q.timestamp, 1700000000123);
}

#[test]
fn written_quote_reads_back() {
    let line = format_quote_line("NVDA", "99.125", u32::MAX, u64::MAX);
    let q = parse_quote_line(&line).unwrap();
    assert_eq!((q.ticker.as_str(), q.price_text.as_str(), q.volume, q.timestamp), ("NVDA", "99.125", u32::MAX, u64::MAX));
}

#[test]
fn malformed_quote_lines_give_none() {
    let bad = [
        "",
        "AAPL|1.0|10",
        "AAPL|1.0|10|20|30",
        "AAPL|1.0|x|20",
        "AAPL|1.0|10|",
        "AAPL|1.0|4294967296|20",
        "AAPL|1.0|10|18446744073709551616",
        "AAPL|1.0|-1|20",
    ];
    for s in bad {
        assert!(parse_quote_line(s).is_none(), "line {:?}", s);
    }
    let q = parse_quote_line("AAPL|1.0|+10|020").unwrap();
    assert_eq!((q.volume, q.timestamp), (10, 20));
}

#[test]
fn volume_is_base_plus_draw() {
    assert_eq!(quote_volume(true, 0), 1000);
    assert_eq!(quote_volume(true, 4999), 5999);
    assert_eq!(quote_volume(false, 0), 100);
    assert_eq!(quote_volume(false, 999), 1099);
}

#[test]
fn drawn_volumes_stay_in_range() {
    for _ in 0..2000 {
        let v = draw_volume(true);
        assert!((1000..6000).contains(&v), "volume {}", v);
        let v = draw_volume(false);
        assert!((100..1100).contains(&v), "volume {}", v);
    }
}

#[test]
fn draft_carries_ticker_volume_and_time() {
    let before = chrono::Utc::now().timestamp_millis() as u64;
    let d = draft_quote(Ticker::MSFT);
    let after = chrono::Utc::now().timestamp_millis() as u64;
    assert_eq!(d.ticker, "MSFT");
    assert!((1000..6000).contains(&d.volume));
    assert!(before <= d.timestamp && d.timestamp <= after);
    let d = draft_quote(Ticker::META);
    assert!((100..1100).contains(&d.volume));
}

#[test]
fn generator_uses_ticker_text() {
    let mut g = QuoteGenerator {};
    for _ in 0..200 {
        let d = g.generate_quote("TSLA").unwrap();
        assert_eq!(d.ticker, "TSLA");
        assert!((1000..6000).contains(&d.volume));
        let d = g.generate_quote("IBM").unwrap();
        assert_eq!(d.ticker, "IBM");
        assert!((100..1100).contains(&d.volume));
    }
}

#[test]
fn drafts_at_a_reading_carry_it() {
    let d = draft_quote_at(Ticker::AAPL, 1700000000123);
    assert_eq!(d.ticker, "AAPL");
    assert_eq!(d.timestamp, 1700000000123);
    assert!((1000..6000).contains(&d.volume));
    let mut g = QuoteGenerator {};
    let d = g.generate_quote_at("GOOGL", 42).unwrap();
    assert_eq!((d.ticker.as_str(), d.timestamp), ("GOOGL", 42));
    assert!((100..1100).contains(&d.volume));
}
