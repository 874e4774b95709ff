//! The stock symbols the server quotes, their names, and the parse of a name.

use vstd::prelude::*;

use crate::text::{chars_equal, chars_of, is_white_space};

verus! {

/// A stock symbol that the server can quote.
#[derive(Clone, Copy, Debug, PartialEq, Eq, Structural, Hash)]
pub enum Ticker {
    AAPL,
    MSFT,
    TSLA,
    GOOGL,
    AMZN,
    NVDA,
    META,
}

/// The text of a ticker's symbol (what its `Display` writes).
pub open spec fn ticker_name(t: Ticker) -> Seq<char> {
    match t {
        Ticker::AAPL => seq!['A', 'A', 'P', 'L'],
        Ticker::MSFT => seq!['M', 'S', 'F', 'T'],
        Ticker::TSLA => seq!['T', 'S', 'L', 'A'],
        Ticker::GOOGL => seq!['G', 'O', 'O', 'G', 'L'],
        Ticker::AMZN => seq!['A', 'M', 'Z', 'N'],
        Ticker::NVDA => seq!['N', 'V', 'D', 'A'],
        Ticker::META => seq!['M', 'E', 'T', 'A'],
    }
}

/// The ticker whose symbol is exactly `s`, if any (what its `FromStr` gives).
pub open spec fn ticker_from_name(s: Seq<char>) -> Option<Ticker> {
    if s == ticker_name(Ticker::AAPL) {
        Some(Ticker::AAPL)
    } else if s == ticker_name(Ticker::MSFT) {
        Some(Ticker::MSFT)
    } else if s == ticker_name(Ticker::TSLA) {
        Some(Ticker::TSLA)
    } else if s == ticker_name(Ticker::GOOGL) {
        Some(Ticker::GOOGL)
    } else if s == ticker_name(Ticker::AMZN) {
        Some(Ticker::AMZN)
    } else if s == ticker_name(Ticker::NVDA) {
        Some(Ticker::NVDA)
    } else if s == ticker_name(Ticker::META) {
        Some(Ticker::META)
    } else {
        None
    }
}

/// The heavily traded symbols, which get larger quote volumes.
pub open spec fn is_popular(t: Ticker) -> bool {
    t == Ticker::AAPL || t == Ticker::MSFT || t == Ticker::TSLA
}

impl Ticker {
    /// The symbol's text.
    pub fn as_str(&self) -> (s: &'static str)
        ensures
            s@ == ticker_name(*self),
    {
        match self {
            Ticker::AAPL => {
                proof {
                    reveal_strlit("AAPL");
                }
                "AAPL"
            },
            Ticker::MSFT => {
                proof {
                    reveal_strlit("MSFT");
                }
                "MSFT"
            },
            Ticker::TSLA => {
                proof {
                    reveal_strlit("TSLA");
                }
                "TSLA"
            },
            Ticker::GOOGL => {
                proof {
                    reveal_strlit("GOOGL");
                }
                "GOOGL"
            },
            Ticker::AMZN => {
                proof {
                    reveal_strlit("AMZN");
                }
                "AMZN"
            },
            Ticker::NVDA => {
                proof {
                    reveal_strlit("NVDA");
                }
                "NVDA"
            },
            Ticker::META => {
                proof {
                    reveal_strlit("META");
                }
                "META"
            },
        }
    }

    /// The symbol's text as a character buffer.
    pub fn name_chars(&self) -> (v: Vec<char>)
        ensures
            v@ == ticker_name(*self),
    {
        chars_of(self.as_str())
    }

    /// The ticker named exactly by the given characters.
    pub fn from_chars(s: &Vec<char>) -> (r: Option<Ticker>)
        ensures
            r == ticker_from_name(s@),
    {
        if chars_equal(s, &Ticker::AAPL.name_chars()) {
            Some(Ticker::AAPL)
        } else if chars_equal(s, &Ticker::MSFT.name_chars()) {
            Some(Ticker::MSFT)
        } else if chars_equal(s, &Ticker::TSLA.name_chars()) {
            Some(Ticker::TSLA)
        } else if chars_equal(s, &Ticker::GOOGL.name_chars()) {
            Some(Ticker::GOOGL)
        } else if chars_equal(s, &Ticker::AMZN.name_chars()) {
            Some(Ticker::AMZN)
        } else if chars_equal(s, &Ticker::NVDA.name_chars()) {
            Some(Ticker::NVDA)
        } else if chars_equal(s, &Ticker::META.name_chars()) {
            Some(Ticker::META)
        } else {
            None
        }
    }

    /// The ticker named exactly by `s` (`s.parse::<Ticker>().ok()`).
    pub fn from_name(s: &str) -> (r: Option<Ticker>)
        ensures
            r == ticker_from_name(s@),
    {
        Ticker::from_chars(&chars_of(s))
    }

    /// Whether this is one of the heavily traded symbols.
    pub fn is_popular(&self) -> (b: bool)
        ensures
            b == is_popular(*self),
            b <==> (*self == Ticker::AAPL || *self == Ticker::MSFT || *self == Ticker::TSLA),
    {
        match self {
            Ticker::AAPL | Ticker::MSFT | Ticker::TSLA => true,
            _ => false,
        }
    }
}

/// Reading a ticker's own name gives the ticker back.
pub proof fn lemma_ticker_name_round_trip(t: Ticker)
    ensures
        ticker_from_name(ticker_name(t)) == Some(t),
{
    let n = ticker_name(t);
    match t {
        Ticker::AAPL => {},
        Ticker::MSFT => {
            assert(n[0] != ticker_name(Ticker::AAPL)[0]);
        },
        Ticker::TSLA => {
            assert(n[0] != ticker_name(Ticker::AAPL)[0]);
            assert(n[0] != ticker_name(Ticker::MSFT)[0]);
        },
        Ticker::GOOGL => {
            assert(n.len() != ticker_name(Ticker::AAPL).len());
            assert(n.len() != ticker_name(Ticker::MSFT).len());
            assert(n.len() != ticker_name(Ticker::TSLA).len());
        },
        Ticker::AMZN => {
            assert(n[1] != ticker_name(Ticker::AAPL)[1]);
            assert(n[0] != ticker_name(Ticker::MSFT)[0]);
            assert(n[0] != ticker_name(Ticker::TSLA)[0]);
            assert(n.len() != ticker_name(Ticker::GOOGL).len());
        },
        Ticker::NVDA => {
            assert(n[0] != ticker_name(Ticker::AAPL)[0]);
            assert(n[0] != ticker_name(Ticker::MSFT)[0]);
            assert(n[0] != ticker_name(Ticker::TSLA)[0]);
            assert(n.len() != ticker_name(Ticker::GOOGL).len());
            assert(n[0] != ticker_name(Ticker::AMZN)[0]);
        },
        Ticker::META => {
            assert(n[0] != ticker_name(Ticker::AAPL)[0]);
            assert(n[1] != ticker_name(Ticker::MSFT)[1]);
            assert(n[0] != ticker_name(Ticker::TSLA)[0]);
            assert(n.len() != ticker_name(Ticker::GOOGL).len());
            assert(n[0] != ticker_name(Ticker::AMZN)[0]);
            assert(n[0] != ticker_name(Ticker::NVDA)[0]);
        },
    }
}

/// The heavily traded symbols are exactly AAPL, MSFT and TSLA; GOOGL, AMZN,
/// NVDA and META are ordinary.
pub proof fn law_popular_tickers(t: Ticker)
    ensures
        is_popular(t) <==> (t == Ticker::AAPL || t == Ticker::MSFT || t == Ticker::TSLA),
        t == Ticker::GOOGL || t == Ticker::AMZN || t == Ticker::NVDA || t == Ticker::META
            ==> !is_popular(t),
{
}

/// Different tickers have different names.
pub proof fn lemma_ticker_names_distinct(a: Ticker, b: Ticker)
    requires
        a != b,
    ensures
        ticker_name(a) != ticker_name(b),
{
    lemma_ticker_name_round_trip(a);
    lemma_ticker_name_round_trip(b);
}

/// A ticker's name is a non-empty run of upper-case ASCII letters, so it holds
/// no white space and none of the separators `,`, `:` and `|`.
pub proof fn lemma_ticker_name_plain(t: Ticker)
    ensures
        ticker_name(t).len() > 0,
        forall|i: int|
            0 <= i < ticker_name(t).len() ==> 65 <= (#[trigger] ticker_name(t)[i] as u32) <= 90,
        forall|i: int| 0 <= i < ticker_name(t).len() ==> !is_white_space(#[trigger] ticker_name(t)[i]),
        !ticker_name(t).contains(','),
        !ticker_name(t).contains(':'),
        !ticker_name(t).contains('|'),
{
    let n = ticker_name(t);
    assert forall|i: int| 0 <= i < n.len() implies 65 <= (#[trigger] n[i] as u32) <= 90 by {
        match t {
            Ticker::AAPL => {},
            Ticker::MSFT => {},
            Ticker::TSLA => {},
            Ticker::GOOGL => {},
            Ticker::AMZN => {},
            Ticker::NVDA => {},
            Ticker::META => {},
        }
    }
}

} // verus!
