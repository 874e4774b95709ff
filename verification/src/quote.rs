//! Stock quotes: the `TICKER|PRICE|VOLUME|TIMESTAMP` line they travel as, and
//! the drawing of a fresh quote's volume and time stamp.
//!
//! A quote's price is a floating-point number; the library carries it as the
//! text that its `Display` writes, and the caller formats and reads it.

use vstd::prelude::*;
use vstd::utf8::encode_utf8;

use crate::text::{
    char_vecs_view, chars_of, decimal, lemma_decimal_digits, lemma_parse_decimal,
    lemma_split_char_concat, lemma_split_char_single, parse_bounded, parse_unsigned, push_char,
    push_chars, push_decimal, split_at_char, split_char, string_from_chars,
};
use crate::ticker::{
    is_popular, lemma_ticker_name_round_trip, ticker_from_name, ticker_name, Ticker,
};

verus! {

// ------------------------------------------------------------------
// The quote line
// ------------------------------------------------------------------

/// `TICKER|PRICE|VOLUME|TIMESTAMP`, the volume and time stamp in decimal.
pub open spec fn quote_line(ticker: Seq<char>, price: Seq<char>, volume: nat, timestamp: nat) -> Seq<
    char,
> {
    ticker + seq!['|'] + price + seq!['|'] + decimal(volume) + seq!['|'] + decimal(timestamp)
}

/// The fields of a quote line, the price still as text.
#[derive(Debug, Clone)]
pub struct QuoteFields {
    pub ticker: String,
    pub price_text: String,
    pub volume: u32,
    pub timestamp: u64,
}

/// What a quote line holds: its four `|`-separated fields, when there are
/// exactly four and the third and fourth read as a `u32` and a `u64`.
pub open spec fn quote_fields(s: Seq<char>) -> Option<(Seq<char>, Seq<char>, nat, nat)> {
    let pieces = split_char(s, '|');
    if pieces.len() == 4 {
        match (parse_unsigned(pieces[2], u32::MAX as nat), parse_unsigned(pieces[3], u64::MAX as nat)) {
            (Some(volume), Some(timestamp)) => Some((pieces[0], pieces[1], volume, timestamp)),
            _ => None,
        }
    } else {
        None
    }
}

/// Writes a quote line (`StockQuote::to_string`), given the price's text.
pub fn format_quote_line(ticker: &str, price_text: &str, volume: u32, timestamp: u64) -> (s: String)
    ensures
        s@ == quote_line(ticker@, price_text@, volume as nat, timestamp as nat),
{
    let mut s = string_from_chars(&chars_of(ticker));
    push_char(&mut s, '|');
    push_chars(&mut s, &chars_of(price_text));
    push_char(&mut s, '|');
    push_decimal(&mut s, volume as u64);
    push_char(&mut s, '|');
    push_decimal(&mut s, timestamp);
    assert(s@ =~= quote_line(ticker@, price_text@, volume as nat, timestamp as nat));
    s
}

/// The UTF-8 bytes of a quote line (`StockQuote::to_bytes`), given the price's text.
pub fn encode_quote(ticker: &str, price_text: &str, volume: u32, timestamp: u64) -> (bytes: Vec<u8>)
    ensures
        bytes@ == encode_utf8(quote_line(ticker@, price_text@, volume as nat, timestamp as nat)),
{
    let line = format_quote_line(ticker, price_text, volume, timestamp);
    let b = line.as_str().as_bytes();
    vstd::slice::slice_to_vec(b)
}

/// Reads the fields of a quote line (`StockQuote::from_string` up to the
/// reading of the price).
pub fn parse_quote_line(s: &str) -> (r: Option<QuoteFields>)
    ensures
        match quote_fields(s@) {
            Some(f) => r matches Some(q) && q.ticker@ == f.0 && q.price_text@ == f.1 && q.volume
                == f.2 && q.timestamp == f.3,
            None => r is None,
        },
{
    let pieces = split_at_char(&chars_of(s), '|');
    let ghost views = char_vecs_view(pieces@);
    if pieces.len() != 4 {
        return None;
    }
    assert(views[2] == pieces@[2]@ && views[3] == pieces@[3]@);
    assert(views[0] == pieces@[0]@ && views[1] == pieces@[1]@);
    let volume = parse_bounded(&pieces[2], 0xffff_ffff);
    let timestamp = parse_bounded(&pieces[3], 0xffff_ffff_ffff_ffff);
    match (volume, timestamp) {
        (Some(v), Some(t)) => Some(
            QuoteFields {
                ticker: string_from_chars(&pieces[0]),
                price_text: string_from_chars(&pieces[1]),
                volume: v as u32,
                timestamp: t,
            },
        ),
        _ => None,
    }
}

/// Reading a written quote line gives back what was written, when neither the
/// ticker nor the price text holds a `|`.
pub proof fn law_quote_line_round_trip(ticker: Seq<char>, price: Seq<char>, volume: u32, timestamp: u64)
    requires
        !ticker.contains('|'),
        !price.contains('|'),
    ensures
        quote_fields(quote_line(ticker, price, volume as nat, timestamp as nat)) == Some(
            (ticker, price, volume as nat, timestamp as nat),
        ),
{
    let v = decimal(volume as nat);
    let t = decimal(timestamp as nat);
    lemma_decimal_digits(volume as nat);
    lemma_decimal_digits(timestamp as nat);
    assert(!v.contains('|')) by {
        if v.contains('|') {
            let i = choose|i: int| 0 <= i < v.len() && v[i] == '|';
            assert(crate::text::is_digit(v[i]));
        }
    }
    assert(!t.contains('|')) by {
        if t.contains('|') {
            let i = choose|i: int| 0 <= i < t.len() && t[i] == '|';
            assert(crate::text::is_digit(t[i]));
        }
    }
    let line = quote_line(ticker, price, volume as nat, timestamp as nat);
    let a = ticker + seq!['|'] + price + seq!['|'] + v;
    assert(line =~= a + seq!['|'] + t);
    let b = ticker + seq!['|'] + price;
    assert(a =~= b + seq!['|'] + v);
    lemma_split_char_concat(a, '|', t);
    lemma_split_char_concat(b, '|', v);
    lemma_split_char_concat(ticker, '|', price);
    lemma_split_char_single(ticker, '|');
    lemma_split_char_single(price, '|');
    lemma_split_char_single(v, '|');
    lemma_split_char_single(t, '|');
    assert(split_char(line, '|') =~= seq![ticker, price, v, t]);
    lemma_parse_decimal(volume as nat, u32::MAX as nat);
    lemma_parse_decimal(timestamp as nat, u64::MAX as nat);
}

// ------------------------------------------------------------------
// Drawing a fresh quote
// ------------------------------------------------------------------

/// The smallest volume a quote of a ticker can have: 1000 for the heavily
/// traded symbols, 100 for the others.
pub open spec fn volume_base(popular: bool) -> nat {
    if popular {
        1000
    } else {
        100
    }
}

/// How many volumes above the base a quote can have: 5000 for the heavily
/// traded symbols, 1000 for the others.
pub open spec fn volume_span(popular: bool) -> nat {
    if popular {
        5000
    } else {
        1000
    }
}

/// A uniformly drawn number below `span` (`rand::random_range(0..span)`).
/// Stated: the number lies below `span`; which one it is rests on chance.
#[verifier::external_body]
fn random_below(span: u32) -> (r: u32)
    requires
        span > 0,
    ensures
        r < span,
{
    rand::random_range(0..span)
}

/// Milliseconds since the Unix epoch (`chrono::Utc::now().timestamp_millis()`),
/// taken as unsigned. Nothing is stated of the reading: it depends on the clock.
#[verifier::external_body]
fn unix_millis() -> u64 {
    chrono::Utc::now().timestamp_millis() as u64
}

/// The volume of a quote whose random draw is `draw`: the base plus the draw.
pub fn quote_volume(popular: bool, draw: u32) -> (v: u32)
    requires
        draw < volume_span(popular),
    ensures
        v == volume_base(popular) + draw,
{
    if popular {
        1000 + draw
    } else {
        100 + draw
    }
}

/// Draws a quote volume: uniformly in `1000..6000` for the heavily traded
/// symbols and in `100..1100` for the others.
pub fn draw_volume(popular: bool) -> (v: u32)
    ensures
        volume_base(popular) <= v < volume_base(popular) + volume_span(popular),
{
    let span: u32 = if popular {
        5000
    } else {
        1000
    };
    quote_volume(popular, random_below(span))
}

/// A quote without its price: the ticker's text, the volume and the time stamp
/// in milliseconds since the Unix epoch.
#[derive(Debug, Clone)]
pub struct QuoteDraft {
    pub ticker: String,
    pub volume: u32,
    pub timestamp: u64,
}

/// Draws a fresh quote of a ticker at the clock reading `now_ms`: its volume
/// in the ticker's range, its time stamp `now_ms`.
pub fn draft_quote_at(ticker: Ticker, now_ms: u64) -> (q: QuoteDraft)
    ensures
        q.ticker@ == ticker_name(ticker),
        volume_base(is_popular(ticker)) <= q.volume < volume_base(is_popular(ticker)) + volume_span(
            is_popular(ticker),
        ),
        (ticker == Ticker::AAPL || ticker == Ticker::MSFT || ticker == Ticker::TSLA) ==> 1000
            <= q.volume < 6000,
        !(ticker == Ticker::AAPL || ticker == Ticker::MSFT || ticker == Ticker::TSLA) ==> 100
            <= q.volume < 1100,
        q.timestamp == now_ms,
{
    let volume = draw_volume(ticker.is_popular());
    QuoteDraft { ticker: ticker.as_str().to_owned(), volume, timestamp: now_ms }
}

/// Draws a fresh quote of a ticker, its volume in the ticker's range and its
/// time stamp the current time (`StockQuote::generate_new` up to the price).
pub fn draft_quote(ticker: Ticker) -> (q: QuoteDraft)
    ensures
        q.ticker@ == ticker_name(ticker),
        volume_base(is_popular(ticker)) <= q.volume < volume_base(is_popular(ticker)) + volume_span(
            is_popular(ticker),
        ),
        (ticker == Ticker::AAPL || ticker == Ticker::MSFT || ticker == Ticker::TSLA) ==> 1000
            <= q.volume < 6000,
        !(ticker == Ticker::AAPL || ticker == Ticker::MSFT || ticker == Ticker::TSLA) ==> 100
            <= q.volume < 1100,
{
    draft_quote_at(ticker, unix_millis())
}

/// Whether a symbol's text names one of the heavily traded symbols.
pub open spec fn is_popular_name(name: Seq<char>) -> bool {
    name == ticker_name(Ticker::AAPL) || name == ticker_name(Ticker::MSFT) || name == ticker_name(
        Ticker::TSLA,
    )
}

/// A symbol text counts as heavily traded exactly when it reads as one of the
/// heavily traded tickers, AAPL, MSFT or TSLA.
pub proof fn law_popular_name(name: Seq<char>)
    ensures
        is_popular_name(name) <==> (ticker_from_name(name) matches Some(t) && is_popular(t)),
        is_popular_name(name) <==> (ticker_from_name(name) matches Some(t) && (t == Ticker::AAPL
            || t == Ticker::MSFT || t == Ticker::TSLA)),
{
    lemma_ticker_name_round_trip(Ticker::AAPL);
    lemma_ticker_name_round_trip(Ticker::MSFT);
    lemma_ticker_name_round_trip(Ticker::TSLA);
    match ticker_from_name(name) {
        Some(t) => {
            lemma_ticker_name_round_trip(t);
            assert(ticker_name(t) == name);
        },
        None => {},
    }
}

/// Produces quotes for symbols given by their text.
#[derive(Debug, Clone)]
pub struct QuoteGenerator {}

impl QuoteGenerator {
    /// Draws a fresh quote for the symbol `ticker` at the clock reading
    /// `now_ms`: its volume in the range of a heavily traded symbol when
    /// `ticker` is `AAPL`, `MSFT` or `TSLA`, and in the ordinary range
    /// otherwise; its time stamp `now_ms`.
    pub fn generate_quote_at(&mut self, ticker: &str, now_ms: u64) -> (q: Option<QuoteDraft>)
        ensures
            q matches Some(d) && d.ticker@ == ticker@ && volume_base(is_popular_name(ticker@))
                <= d.volume < volume_base(is_popular_name(ticker@)) + volume_span(
                is_popular_name(ticker@),
            ) && d.timestamp == now_ms,
            q matches Some(d) && ((ticker_from_name(ticker@) matches Some(t) && (t == Ticker::AAPL
                || t == Ticker::MSFT || t == Ticker::TSLA)) ==> 1000 <= d.volume < 6000),
            q matches Some(d) && (!(ticker_from_name(ticker@) matches Some(t) && (t == Ticker::AAPL
                || t == Ticker::MSFT || t == Ticker::TSLA)) ==> 100 <= d.volume < 1100),
    {
        proof {
            law_popular_name(ticker@);
        }
        let name = chars_of(ticker);
        let popular = crate::text::chars_equal(&name, &Ticker::AAPL.name_chars())
            || crate::text::chars_equal(&name, &Ticker::MSFT.name_chars())
            || crate::text::chars_equal(&name, &Ticker::TSLA.name_chars());
        let volume = draw_volume(popular);
        Some(QuoteDraft { ticker: ticker.to_owned(), volume, timestamp: now_ms })
    }

    /// Draws a fresh quote for the symbol `ticker`: its volume in the range of
    /// a heavily traded symbol when `ticker` is `AAPL`, `MSFT` or `TSLA`, and
    /// in the ordinary range otherwise; its time stamp the current time.
    pub fn generate_quote(&mut self, ticker: &str) -> (q: Option<QuoteDraft>)
        ensures
            q matches Some(d) && d.ticker@ == ticker@ && volume_base(is_popular_name(ticker@))
                <= d.volume < volume_base(is_popular_name(ticker@)) + volume_span(
                is_popular_name(ticker@),
            ),
            q matches Some(d) && ((ticker_from_name(ticker@) matches Some(t) && (t == Ticker::AAPL
                || t == Ticker::MSFT || t == Ticker::TSLA)) ==> 1000 <= d.volume < 6000),
            q matches Some(d) && (!(ticker_from_name(ticker@) matches Some(t) && (t == Ticker::AAPL
                || t == Ticker::MSFT || t == Ticker::TSLA)) ==> 100 <= d.volume < 1100),
    {
        let now_ms = unix_millis();
        self.generate_quote_at(ticker, now_ms)
    }
}

} // verus!
