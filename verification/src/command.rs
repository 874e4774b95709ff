//! Client commands: construction, endpoint texts, and the parse of the text
//! command `STREAM udp://HOST:PORT T1,T2,...` that a client sends over TCP.

use vstd::prelude::*;
use vstd::utf8::{decode_utf8, valid_utf8};

use crate::text::{
    char_vecs_view, chars_equal, chars_of, decimal, decimal_string, is_white_space,
    lemma_split_char_concat, lemma_split_char_single, lemma_words_concat, lemma_words_single,
    push_char, split_at_char, split_char, split_words, string_from_chars, words,
};
use crate::ticker::{
    lemma_ticker_name_plain, lemma_ticker_name_round_trip, ticker_from_name, ticker_name, Ticker,
};

verus! {

/// Header of a quote subscription command.
pub const HEADER: &'static str = "J_QUOTE";

/// Header of a keep-alive command.
pub const PING: &'static str = "PING";

/// Transport named in every command.
pub const CONNECTION: &'static str = "UDP";

/// `"J_QUOTE"`.
pub open spec fn subscribe_header() -> Seq<char> {
    seq!['J', '_', 'Q', 'U', 'O', 'T', 'E']
}

/// `"PING"`.
pub open spec fn ping_header() -> Seq<char> {
    seq!['P', 'I', 'N', 'G']
}

/// `"UDP"`.
pub open spec fn udp_connection() -> Seq<char> {
    seq!['U', 'D', 'P']
}

/// `"STREAM"`, the keyword of a text subscription and the header it yields.
pub open spec fn stream_keyword() -> Seq<char> {
    seq!['S', 'T', 'R', 'E', 'A', 'M']
}

/// `"udp://"`, the scheme that a text subscription's endpoint starts with.
pub open spec fn udp_scheme() -> Seq<char> {
    seq!['u', 'd', 'p', ':', '/', '/']
}

/// Describes a client request received by the server.
#[derive(Debug, Clone)]
pub struct Command {
    /// Operation identifier, e.g. `"J_QUOTE"` for quote stream subscription.
    pub header: String,
    /// Transport/protocol hint as provided by the client (informational).
    pub connection: String,
    /// Client-reported address (string form).
    pub address: String,
    /// Client-reported port (string form).
    pub port: String,
    /// List of tickers the client is interested in receiving.
    pub tickers: Vec<Ticker>,
    /// UDP address for streaming data.
    pub udp_address: String,
    /// UDP port for streaming data.
    pub udp_port: String,
}

/// A string holding a literal, with its characters known.
fn literal_string(lit: &str) -> (s: String)
    ensures
        s@ == lit@,
{
    lit.to_owned()
}

impl Command {
    /// Creates a new subscription (`J_QUOTE`) command.
    pub fn new(address: &str, port: &str, udp_address: &str, udp_port: &str, tickers: Vec<Ticker>) -> (c: Self)
        ensures
            c.header@ == subscribe_header(),
            c.connection@ == udp_connection(),
            c.address@ == address@,
            c.port@ == port@,
            c.udp_address@ == udp_address@,
            c.udp_port@ == udp_port@,
            c.tickers@ == tickers@,
    {
        proof {
            reveal_strlit("J_QUOTE");
            reveal_strlit("UDP");
        }
        let header = literal_string(HEADER);
        let connection = literal_string(CONNECTION);
        assert(header@ =~= subscribe_header());
        assert(connection@ =~= udp_connection());
        Command {
            header,
            connection,
            address: address.to_owned(),
            port: port.to_owned(),
            udp_address: udp_address.to_owned(),
            udp_port: udp_port.to_owned(),
            tickers,
        }
    }

    /// Creates a new keep-alive `PING` command.
    pub fn new_ping(address: &str, port: &str) -> (c: Self)
        ensures
            c.header@ == ping_header(),
            c.connection@ == udp_connection(),
            c.address@ == address@,
            c.port@ == port@,
            c.udp_address@ == Seq::<char>::empty(),
            c.udp_port@ == Seq::<char>::empty(),
            c.tickers@ == Seq::<Ticker>::empty(),
    {
        proof {
            reveal_strlit("PING");
            reveal_strlit("UDP");
        }
        let header = literal_string(PING);
        let connection = literal_string(CONNECTION);
        assert(header@ =~= ping_header());
        assert(connection@ =~= udp_connection());
        Command {
            header,
            connection,
            address: address.to_owned(),
            port: port.to_owned(),
            udp_address: String::new(),
            udp_port: String::new(),
            tickers: Vec::new(),
        }
    }

    /// The client's UDP endpoint as `ADDRESS:PORT` text, ready to be read as a
    /// socket address.
    pub fn udp_addr_text(&self) -> (s: String)
        ensures
            s@ == self.udp_address@ + seq![':'] + self.udp_port@,
    {
        let mut s = string_from_chars(&chars_of(self.udp_address.as_str()));
        push_char(&mut s, ':');
        let port = chars_of(self.udp_port.as_str());
        crate::text::push_chars(&mut s, &port);
        s
    }

    /// The client's TCP endpoint as `ADDRESS:PORT` text, ready to be read as a
    /// socket address.
    pub fn tcp_addr_text(&self) -> (s: String)
        ensures
            s@ == self.address@ + seq![':'] + self.port@,
    {
        let mut s = string_from_chars(&chars_of(self.address.as_str()));
        push_char(&mut s, ':');
        let port = chars_of(self.port.as_str());
        crate::text::push_chars(&mut s, &port);
        s
    }
}

// ------------------------------------------------------------------
// The text subscription command
// ------------------------------------------------------------------

/// Whether `s` contains the scheme separator `://`.
pub open spec fn has_scheme_separator(s: Seq<char>) -> bool {
    exists|i: int| 0 <= i && i + 2 < s.len() && #[trigger] s[i] == ':' && s[i + 1] == '/' && s[i + 2] == '/'
}

/// The host and port texts named by a `udp://HOST:PORT` word. The word splits
/// at `://` into exactly the scheme `udp` and a rest, and the rest splits at
/// `:` into exactly a host and a port.
pub open spec fn udp_endpoint(url: Seq<char>) -> Option<(Seq<char>, Seq<char>)> {
    if url.len() >= 6 && url.take(6) == udp_scheme() {
        let rest = url.skip(6);
        let pieces = split_char(rest, ':');
        if !has_scheme_separator(rest) && pieces.len() == 2 {
            Some((pieces[0], pieces[1]))
        } else {
            None
        }
    } else {
        None
    }
}

/// The tickers named by a list of texts, in order, skipping texts that name none.
pub open spec fn parsed_tickers(pieces: Seq<Seq<char>>) -> Seq<Ticker>
    decreases pieces.len(),
{
    if pieces.len() == 0 {
        Seq::empty()
    } else {
        let prev = parsed_tickers(pieces.drop_last());
        match ticker_from_name(pieces.last()) {
            Some(t) => prev.push(t),
            None => prev,
        }
    }
}

/// What a text command asks for: the UDP host, the UDP port and the tickers.
/// The command's words must be at least three, the first `STREAM`, the
/// second a `udp://HOST:PORT` endpoint, and the third a comma-separated list
/// that names at least one ticker; further words are ignored.
pub open spec fn stream_request(text: Seq<char>) -> Option<(Seq<char>, Seq<char>, Seq<Ticker>)> {
    let parts = words(text);
    if parts.len() >= 3 && parts[0] == stream_keyword() {
        match udp_endpoint(parts[1]) {
            Some(endpoint) => {
                let tickers = parsed_tickers(split_char(parts[2], ','));
                if tickers.len() > 0 {
                    Some((endpoint.0, endpoint.1, tickers))
                } else {
                    None
                }
            },
            None => None,
        }
    } else {
        None
    }
}

/// Whether a character buffer contains `://`.
fn contains_scheme_separator(s: &Vec<char>) -> (b: bool)
    ensures
        b == has_scheme_separator(s@),
{
    let mut i: usize = 0;
    while s.len() - i > 2
        invariant
            i <= s.len(),
            forall|j: int|
                0 <= j < i && j + 2 < s@.len() ==> !(#[trigger] s@[j] == ':' && s@[j + 1] == '/'
                    && s@[j + 2] == '/'),
        decreases s.len() - i,
    {
        if s[i] == ':' && s[i + 1] == '/' && s[i + 2] == '/' {
            return true;
        }
        i = i + 1;
    }
    false
}

/// The host and port of a `udp://HOST:PORT` word.
fn parse_udp_endpoint(url: &Vec<char>) -> (r: Option<(Vec<char>, Vec<char>)>)
    ensures
        match udp_endpoint(url@) {
            Some(e) => r matches Some(p) && p.0@ == e.0 && p.1@ == e.1,
            None => r is None,
        },
{
    if url.len() < 6 {
        return None;
    }
    if !(url[0] == 'u' && url[1] == 'd' && url[2] == 'p' && url[3] == ':' && url[4] == '/' && url[5]
        == '/') {
        assert(url@.take(6)[0] == url@[0] && url@.take(6)[1] == url@[1] && url@.take(6)[2] == url@[2]
            && url@.take(6)[3] == url@[3] && url@.take(6)[4] == url@[4] && url@.take(6)[5]
            == url@[5]);
        return None;
    }
    assert(url@.take(6) =~= udp_scheme());
    let mut rest: Vec<char> = Vec::new();
    let mut i: usize = 6;
    while i < url.len()
        invariant
            6 <= i <= url.len(),
            rest@ == url@.subrange(6, i as int),
        decreases url.len() - i,
    {
        rest.push(url[i]);
        i = i + 1;
        assert(rest@ =~= url@.subrange(6, i as int));
    }
    assert(rest@ =~= url@.skip(6));
    if contains_scheme_separator(&rest) {
        return None;
    }
    let pieces = split_at_char(&rest, ':');
    if pieces.len() != 2 {
        return None;
    }
    let host = pieces[0].clone();
    let port = pieces[1].clone();
    assert(char_vecs_view(pieces@)[0] == pieces@[0]@);
    assert(char_vecs_view(pieces@)[1] == pieces@[1]@);
    Some((host, port))
}

/// The tickers named by the comma-separated pieces of a word.
fn parse_ticker_list(word: &Vec<char>) -> (r: Vec<Ticker>)
    ensures
        r@ == parsed_tickers(split_char(word@, ',')),
{
    let pieces = split_at_char(word, ',');
    let ghost views = char_vecs_view(pieces@);
    let mut r: Vec<Ticker> = Vec::new();
    let mut i: usize = 0;
    while i < pieces.len()
        invariant
            i <= pieces.len(),
            views == char_vecs_view(pieces@),
            r@ == parsed_tickers(views.take(i as int)),
        decreases pieces.len() - i,
    {
        assert(views.take(i + 1).drop_last() =~= views.take(i as int));
        assert(views.take(i + 1).last() == pieces@[i as int]@);
        match Ticker::from_chars(&pieces[i]) {
            Some(t) => r.push(t),
            None => {},
        }
        i = i + 1;
    }
    assert(views.take(pieces.len() as int) =~= views);
    r
}

/// Parses a text command such as `STREAM udp://127.0.0.1:34254 AAPL,TSLA`
/// received from the client at `client_ip`, `client_port`. A command that
/// asks for a stream gives a `STREAM` command over `UDP` for the client's
/// address with the requested endpoint and tickers; any other text gives none.
pub fn parse_text_command(cmd: &str, client_ip: &str, client_port: u16) -> (r: Option<Command>)
    ensures
        match stream_request(cmd@) {
            Some(req) => r matches Some(c) && c.header@ == stream_keyword() && c.connection@
                == udp_connection() && c.address@ == client_ip@ && c.port@ == decimal(
                client_port as nat,
            ) && c.udp_address@ == req.0 && c.udp_port@ == req.1 && c.tickers@ == req.2,
            None => r is None,
        },
{
    proof {
        reveal_strlit("STREAM");
        reveal_strlit("UDP");
    }
    let text = chars_of(cmd);
    let parts = split_words(&text);
    let ghost views = char_vecs_view(parts@);
    assert(views == words(cmd@));
    if parts.len() < 3 {
        return None;
    }
    assert(views[0] == parts@[0]@ && views[1] == parts@[1]@ && views[2] == parts@[2]@);
    let keyword = chars_of("STREAM");
    assert(keyword@ =~= stream_keyword());
    if !chars_equal(&parts[0], &keyword) {
        return None;
    }
    let endpoint = parse_udp_endpoint(&parts[1]);
    match endpoint {
        None => None,
        Some((host, port)) => {
            let tickers = parse_ticker_list(&parts[2]);
            if tickers.len() == 0 {
                return None;
            }
            let header = literal_string("STREAM");
            let connection = literal_string(CONNECTION);
            assert(header@ =~= stream_keyword());
            assert(connection@ =~= udp_connection());
            Some(
                Command {
                    header,
                    connection,
                    address: client_ip.to_owned(),
                    port: decimal_string(client_port as u64),
                    udp_address: string_from_chars(&host),
                    udp_port: string_from_chars(&port),
                    tickers,
                },
            )
        },
    }
}

/// The text that `String::from_utf8_lossy` makes of a byte sequence.
pub uninterp spec fn lossy_text(bytes: Seq<u8>) -> Seq<char>;

/// Decodes bytes as UTF-8, each invalid sequence becoming U+FFFD
/// (`String::from_utf8_lossy`). Stated: the result depends on the bytes
/// alone, and valid UTF-8 decodes to exactly the characters it encodes; what
/// invalid input becomes is not stated.
#[verifier::external_body]
fn decode_lossy(bytes: &[u8]) -> (s: String)
    ensures
        s@ == lossy_text(bytes@),
        valid_utf8(bytes@) ==> s@ == decode_utf8(bytes@),
{
    String::from_utf8_lossy(bytes).into_owned()
}

/// Parses the bytes of a text command received from the client at
/// `client_ip`, `client_port`: the bytes are decoded as UTF-8 (invalid
/// sequences replaced), and the text is read as `parse_text_command` reads it.
pub fn parse_command_bytes(bytes: &[u8], client_ip: &str, client_port: u16) -> (r: Option<Command>)
    ensures
        match stream_request(lossy_text(bytes@)) {
            Some(req) => r matches Some(c) && c.header@ == stream_keyword() && c.connection@
                == udp_connection() && c.address@ == client_ip@ && c.port@ == decimal(
                client_port as nat,
            ) && c.udp_address@ == req.0 && c.udp_port@ == req.1 && c.tickers@ == req.2,
            None => r is None,
        },
        valid_utf8(bytes@) ==> lossy_text(bytes@) == decode_utf8(bytes@),
{
    let text = decode_lossy(bytes);
    parse_text_command(text.as_str(), client_ip, client_port)
}

/// Every ticker read from a list of texts is named by one of the texts.
proof fn lemma_parsed_tickers_named(pieces: Seq<Seq<char>>)
    ensures
        forall|i: int|
            0 <= i < parsed_tickers(pieces).len() ==> pieces.contains(
                ticker_name(#[trigger] parsed_tickers(pieces)[i]),
            ),
    decreases pieces.len(),
{
    if pieces.len() > 0 {
        let prev = pieces.drop_last();
        lemma_parsed_tickers_named(prev);
        let r = parsed_tickers(pieces);
        assert forall|i: int| 0 <= i < r.len() implies pieces.contains(ticker_name(#[trigger] r[i])) by {
            if i < parsed_tickers(prev).len() {
                assert(r[i] == parsed_tickers(prev)[i]);
                let j = choose|j: int| 0 <= j < prev.len() && prev[j] == ticker_name(r[i]);
                assert(pieces[j] == prev[j]);
            } else {
                let t = ticker_from_name(pieces.last())->Some_0;
                lemma_ticker_name_round_trip(t);
                assert(pieces[pieces.len() - 1] == ticker_name(t));
            }
        }
    }
}

/// A subscription read from a text asks for at least one ticker, and only for
/// tickers whose names appear in its ticker list.
pub proof fn law_subscription_names_its_tickers(text: Seq<char>)
    ensures
        stream_request(text) matches Some(req) ==> req.2.len() > 0 && forall|i: int|
            0 <= i < req.2.len() ==> split_char(words(text)[2], ',').contains(
                ticker_name(#[trigger] req.2[i]),
            ),
{
    lemma_parsed_tickers_named(split_char(words(text)[2], ','));
}

// ------------------------------------------------------------------
// Writing a subscription and reading it back
// ------------------------------------------------------------------

/// The ticker names joined by commas: `T1,T2,...,Tn`.
pub open spec fn ticker_list_text(ts: Seq<Ticker>) -> Seq<char>
    decreases ts.len(),
{
    if ts.len() == 0 {
        Seq::empty()
    } else if ts.len() == 1 {
        ticker_name(ts[0])
    } else {
        ticker_list_text(ts.drop_last()) + seq![','] + ticker_name(ts.last())
    }
}

/// The text a client sends to subscribe: `STREAM udp://HOST:PORT T1,...,Tn`.
pub open spec fn stream_command_text(host: Seq<char>, port: Seq<char>, tickers: Seq<Ticker>) -> Seq<
    char,
> {
    stream_keyword() + seq![' '] + (udp_scheme() + host + seq![':'] + port) + seq![' ']
        + ticker_list_text(tickers)
}

/// Host and port texts that a `udp://HOST:PORT` endpoint carries unchanged:
/// no white space and no `:` in either, and a port that does not start with `//`.
pub open spec fn plain_endpoint(host: Seq<char>, port: Seq<char>) -> bool {
    &&& forall|i: int| 0 <= i < host.len() ==> !is_white_space(#[trigger] host[i]) && host[i] != ':'
    &&& forall|i: int| 0 <= i < port.len() ==> !is_white_space(#[trigger] port[i]) && port[i] != ':'
    &&& !(port.len() >= 2 && port[0] == '/' && port[1] == '/')
}

/// The comma-joined ticker list is non-empty and holds no white space, and
/// reading its pieces gives the tickers back.
proof fn lemma_ticker_list(ts: Seq<Ticker>)
    requires
        ts.len() > 0,
    ensures
        ticker_list_text(ts).len() > 0,
        forall|i: int|
            0 <= i < ticker_list_text(ts).len() ==> !is_white_space(#[trigger] ticker_list_text(ts)[i]),
        parsed_tickers(split_char(ticker_list_text(ts), ',')) == ts,
    decreases ts.len(),
{
    let last = ts.last();
    lemma_ticker_name_plain(last);
    lemma_ticker_name_round_trip(last);
    lemma_split_char_single(ticker_name(last), ',');
    if ts.len() == 1 {
        assert(ts[0] == last);
        let pieces = split_char(ticker_name(last), ',');
        assert(pieces.drop_last() =~= Seq::<Seq<char>>::empty());
        assert(pieces.last() == ticker_name(last));
        assert(parsed_tickers(pieces.drop_last()) == Seq::<Ticker>::empty());
        assert(ts =~= seq![last]);
        assert(parsed_tickers(pieces) =~= seq![last]);
    } else {
        let ts1 = ts.drop_last();
        lemma_ticker_list(ts1);
        let front = ticker_list_text(ts1);
        let text = ticker_list_text(ts);
        assert(text == front + seq![','] + ticker_name(last));
        assert forall|i: int| 0 <= i < text.len() implies !is_white_space(#[trigger] text[i]) by {
            if i < front.len() {
                assert(text[i] == front[i]);
            } else if i == front.len() {
                assert(text[i] == ',');
            } else {
                assert(text[i] == ticker_name(last)[i - front.len() - 1]);
            }
        }
        lemma_split_char_concat(front, ',', ticker_name(last));
        let pieces = split_char(text, ',');
        assert(pieces == split_char(front, ',').push(ticker_name(last)));
        assert(pieces.drop_last() =~= split_char(front, ','));
        assert(pieces.last() == ticker_name(last));
        assert(parsed_tickers(pieces) == ts1.push(last));
        assert(ts1.push(last) =~= ts);
    }
}

/// Reading a subscription text gives back the endpoint and the tickers that
/// were written into it.
pub proof fn law_stream_command_round_trip(host: Seq<char>, port: Seq<char>, tickers: Seq<Ticker>)
    requires
        plain_endpoint(host, port),
        tickers.len() > 0,
    ensures
        stream_request(stream_command_text(host, port, tickers)) == Some((host, port, tickers)),
{
    let k = stream_keyword();
    let url = udp_scheme() + host + seq![':'] + port;
    let list = ticker_list_text(tickers);
    lemma_ticker_list(tickers);
    let text = stream_command_text(host, port, tickers);
    assert(text =~= k + seq![' '] + (url + seq![' '] + list));
    assert(is_white_space(' '));
    lemma_words_concat(k, ' ', url + seq![' '] + list);
    lemma_words_concat(url, ' ', list);
    assert forall|i: int| 0 <= i < k.len() implies !is_white_space(#[trigger] k[i]) by {}
    lemma_words_single(k);
    assert forall|i: int| 0 <= i < url.len() implies !is_white_space(#[trigger] url[i]) by {
        if i < 6 {
        } else if i < 6 + host.len() {
            assert(url[i] == host[i - 6]);
        } else if i == 6 + host.len() {
        } else {
            assert(url[i] == port[i - 7 - host.len()]);
        }
    }
    lemma_words_single(url);
    lemma_words_single(list);
    let parts = words(text);
    assert(parts =~= seq![k, url, list]);
    // the endpoint
    assert(url.take(6) =~= udp_scheme());
    let rest = url.skip(6);
    assert(rest =~= host + seq![':'] + port);
    assert(!host.contains(':')) by {
        if host.contains(':') {
            let i = choose|i: int| 0 <= i < host.len() && host[i] == ':';
        }
    }
    assert(!port.contains(':')) by {
        if port.contains(':') {
            let i = choose|i: int| 0 <= i < port.len() && port[i] == ':';
        }
    }
    lemma_split_char_concat(host, ':', port);
    lemma_split_char_single(host, ':');
    lemma_split_char_single(port, ':');
    assert(split_char(rest, ':') =~= seq![host, port]);
    assert(!has_scheme_separator(rest)) by {
        if has_scheme_separator(rest) {
            let i = choose|i: int|
                0 <= i && i + 2 < rest.len() && #[trigger] rest[i] == ':' && rest[i + 1] == '/'
                    && rest[i + 2] == '/';
            if i < host.len() {
                assert(rest[i] == host[i]);
            } else if i == host.len() {
                assert(rest[i + 1] == port[0]);
                assert(rest[i + 2] == port[1]);
            } else {
                assert(rest[i] == port[i - host.len() - 1]);
            }
        }
    }
    assert(udp_endpoint(url) == Some((host, port)));
}

} // verus!
