use quote_stream::stream::{stream_step, wants_quote, StreamAction, StreamEvent};
use quote_stream::ticker::Ticker;

#[test]
fn forwards_only_subscribed_quotes() {
    let tickers = vec![Ticker::AAPL, Ticker::TSLA];
    let q = |t: &str| StreamEvent::Quote { ticker: t.to_string() };
    assert_eq!(stream_step(&tickers, &q("AAPL")), StreamAction::Forward);
    assert_eq!(stream_step(&tickers, &q("TSLA")), StreamAction::Forward);
    assert_eq!(stream_step(&tickers, &q("MSFT")), StreamAction::Skip);
    assert_eq!(stream_step(&tickers, &q("aapl")), StreamAction::Skip);
    assert_eq!(stream_step(&tickers, &q("")), StreamAction::Skip);
}

#[test]
fn stop_and_shutdown_end_the_stream() {
    let tickers = vec![Ticker::AAPL];
    assert_eq!(stream_step(&tickers, &StreamEvent::Stop), StreamAction::Finish);
    assert_eq!(stream_step(&tickers, &StreamEvent::Shutdown), StreamAction::Finish);
}

#[test]
fn failures_end_the_stream_with_an_error() {
    let tickers = vec![Ticker::AAPL];
    assert_eq!(stream_step(&tickers, &StreamEvent::Disconnected), StreamAction::Fail);
    assert_eq!(stream_step(&tickers, &StreamEvent::SendFailed), StreamAction::Fail);
}

#[test]
fn no_tickers_wants_nothing() {
    assert!(!wants_quote(&Vec::new(), "AAPL"));
    assert!(wants_quote(&vec![Ticker::META], "META"));
}
