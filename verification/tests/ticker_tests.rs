use quote_stream::ticker::Ticker;

const ALL: [Ticker; 7] = [
    Ticker::AAPL,
    Ticker::MSFT,
    Ticker::TSLA,
    Ticker::GOOGL,
    Ticker::AMZN,
    Ticker::NVDA,
    Ticker::META,
];

#[test]
fn names_read_back() {
    for t in ALL {
        assert_eq!(Ticker::from_name(t.as_str()), Some(t));
    }
    assert_eq!(Ticker::AAPL.as_str(), "AAPL");
    assert_eq!(Ticker::GOOGL.as_str(), "GOOGL");
}

#[test]
fn names_are_distinct() {
    for a in ALL {
        for b in ALL {
            assert_eq!(a == b, a.as_str() == b.as_str());
        }
    }
}

#[test]
fn unknown_names_read_as_none() {
    for s in ["", "aapl", "AAPL ", "APPL", "GOOG", "XXX", "AAPL,TSLA"] {
        assert_eq!(Ticker::from_name(s), None, "name {:?}", s);
    }
}

#[test]
fn popular_tickers() {
    assert!(Ticker::AAPL.is_popular());
    assert!(Ticker::MSFT.is_popular());
    assert!(Ticker::TSLA.is_popular());
    assert!(!Ticker::GOOGL.is_popular());
    assert!(!Ticker::META.is_popular());
}
