//! The rule a client's stream follows: which quotes it forwards and when it ends.

use vstd::prelude::*;

use crate::text::{chars_equal, chars_of};
use crate::ticker::{lemma_ticker_name_round_trip, ticker_from_name, ticker_name, Ticker};

verus! {

/// What reaches a client's stream.
#[derive(Debug, Clone)]
pub enum StreamEvent {
    /// The stream was told to stop (its client stopped pinging).
    Stop,
    /// A quote for the symbol with this text.
    Quote { ticker: String },
    /// The quote source is shutting down.
    Shutdown,
    /// The quote channel closed, so a receive failed.
    Disconnected,
    /// Sending a quote to the client failed.
    SendFailed,
}

/// What the stream does in answer.
#[derive(Debug, Clone, Copy, PartialEq, Eq, Structural)]
pub enum StreamAction {
    /// Send the quote to the client.
    Forward,
    /// Drop the quote and keep listening.
    Skip,
    /// End the stream normally.
    Finish,
    /// End the stream with an error.
    Fail,
}

/// Whether one of the client's tickers has the symbol text `name`.
pub open spec fn subscribed(tickers: Seq<Ticker>, name: Seq<char>) -> bool {
    exists|i: int| 0 <= i < tickers.len() && ticker_name(#[trigger] tickers[i]) == name
}

/// The stream's answer to an event: a quote is forwarded exactly when the
/// client subscribed to its symbol; a stop or a shutdown ends the stream
/// normally; a failed receive or a failed send ends it with an error.
pub open spec fn stream_answer(tickers: Seq<Ticker>, event: StreamEvent) -> StreamAction {
    match event {
        StreamEvent::Quote { ticker } => if subscribed(tickers, ticker@) {
            StreamAction::Forward
        } else {
            StreamAction::Skip
        },
        StreamEvent::Stop => StreamAction::Finish,
        StreamEvent::Shutdown => StreamAction::Finish,
        StreamEvent::Disconnected => StreamAction::Fail,
        StreamEvent::SendFailed => StreamAction::Fail,
    }
}

/// Whether a quote for the symbol text `name` goes to a client with these tickers.
pub fn wants_quote(tickers: &Vec<Ticker>, name: &str) -> (b: bool)
    ensures
        b == subscribed(tickers@, name@),
{
    let target = chars_of(name);
    let mut i: usize = 0;
    while i < tickers.len()
        invariant
            i <= tickers@.len(),
            target@ == name@,
            forall|j: int| 0 <= j < i ==> ticker_name(#[trigger] tickers@[j]) != name@,
        decreases tickers.len() - i,
    {
        if chars_equal(&tickers[i].name_chars(), &target) {
            return true;
        }
        i = i + 1;
    }
    false
}

/// The stream's answer to one event.
pub fn stream_step(tickers: &Vec<Ticker>, event: &StreamEvent) -> (action: StreamAction)
    ensures
        action == stream_answer(tickers@, *event),
{
    match event {
        StreamEvent::Quote { ticker } => {
            if wants_quote(tickers, ticker.as_str()) {
                StreamAction::Forward
            } else {
                StreamAction::Skip
            }
        },
        StreamEvent::Stop | StreamEvent::Shutdown => StreamAction::Finish,
        StreamEvent::Disconnected | StreamEvent::SendFailed => StreamAction::Fail,
    }
}

/// A quote reaches a client exactly when its symbol text reads as a ticker
/// that the client asked for.
pub proof fn law_forward_iff_requested(tickers: Seq<Ticker>, name: Seq<char>)
    ensures
        subscribed(tickers, name) <==> (ticker_from_name(name) matches Some(t) && tickers.contains(t)),
{
    if subscribed(tickers, name) {
        let i = choose|i: int| 0 <= i < tickers.len() && ticker_name(#[trigger] tickers[i]) == name;
        lemma_ticker_name_round_trip(tickers[i]);
    }
    if ticker_from_name(name) matches Some(t) && tickers.contains(t) {
        let t = ticker_from_name(name)->Some_0;
        let i = choose|i: int| 0 <= i < tickers.len() && tickers[i] == t;
        assert(ticker_name(t) == name);
        assert(ticker_name(tickers[i]) == name);
    }
}

} // verus!
