use quote_stream::command::{parse_command_bytes, parse_text_command, Command, CONNECTION, HEADER, PING};
use quote_stream::ticker::Ticker;

#[test]
fn new_builds_a_subscription() {
    let c = Command::new("10.0.0.1", "5000", "10.0.0.2", "6000", vec![Ticker::AAPL, Ticker::TSLA]);
    assert_eq!(c.header, HEADER);
    assert_eq!(c.header, "J_QUOTE");
    assert_eq!(c.connection, CONNECTION);
    assert_eq!(c.address, "10.0.0.1");
    assert_eq!(c.port, "5000");
    assert_eq!(c.udp_address, "10.0.0.2");
    assert_eq!(c.udp_port, "6000");
    assert_eq!(c.tickers, vec![Ticker::AAPL, Ticker::TSLA]);
}

#[test]
fn new_ping_builds_a_keep_alive() {
    let c = Command::new_ping("10.0.0.1", "5000");
    assert_eq!(c.header, PING);
    assert_eq!(c.connection, "UDP");
    assert_eq!(c.address, "10.0.0.1");
    assert_eq!(c.port, "5000");
    assert_eq!(c.udp_address, "");
    assert_eq!(c.udp_port, "");
    assert!(c.tickers.is_empty());
}

#[test]
fn endpoint_texts() {
    let c = Command::new("10.0.0.1", "5000", "127.0.0.1", "34254", vec![Ticker::AAPL]);
    assert_eq!(c.udp_addr_text(), "127.0.0.1:34254");
    assert_eq!(c.tcp_addr_text(), "10.0.0.1:5000");
}

#[test]
fn parses_the_documented_example() {
    let c = parse_text_command("STREAM udp://127.0.0.1:34254 AAPL,TSLA", "192.168.1.5", 40000).unwrap();
    assert_eq!(c.header, "STREAM");
    assert_eq!(c.connection, "UDP");
    assert_eq!(c.address, "192.168.1.5");
    assert_eq!(c.port, "40000");
    assert_eq!(c.udp_address, "127.0.0.1");
    assert_eq!(c.udp_port, "34254");
    assert_eq!(c.tickers, vec![Ticker::AAPL, Ticker::TSLA]);
}

#[test]
fn surrounding_space_and_extra_words_are_ignored() {
    let c = parse_text_command("  STREAM\tudp://h:1   MSFT  extra words\r\n", "::1", 7).unwrap();
    assert_eq!(c.udp_address, "h");
    assert_eq!(c.udp_port, "1");
    assert_eq!(c.port, "7");
    assert_eq!(c.address, "::1");
    assert_eq!(c.tickers, vec![Ticker::MSFT]);
}

#[test]
fn unknown_tickers_are_skipped() {
    let c = parse_text_command("STREAM udp://h:1 XXX,AAPL,,aapl,META", "a", 0).unwrap();
    assert_eq!(c.tickers, vec![Ticker::AAPL, Ticker::META]);
    let c = parse_text_command("STREAM udp://h:1 AAPL,AAPL", "a", 0).unwrap();
    assert_eq!(c.tickers, vec![Ticker::AAPL, Ticker::AAPL]);
}

#[test]
fn malformed_commands_give_none() {
    let bad = [
        "",
        "STREAM",
        "STREAM udp://h:1",
        "stream udp://h:1 AAPL",
        "SUBSCRIBE udp://h:1 AAPL",
        "STREAM tcp://h:1 AAPL",
        "STREAM udp:/h:1 AAPL",
        "STREAM udp://h AAPL",
        "STREAM udp://h:1:2 AAPL",
        "STREAM udp://a://b:1 AAPL",
        "STREAM udp://h://1 AAPL",
        "STREAM udp://h:1 XXX,YYY",
        "STREAM udp://h:1 ,",
        "STREAMudp://h:1 AAPL",
    ];
    for s in bad {
        assert!(parse_text_command(s, "a", 0).is_none(), "command {:?}", s);
    }
}

#[test]
fn empty_host_or_port_is_accepted_as_text() {
    let c = parse_text_command("STREAM udp://:1 AAPL", "a", 0).unwrap();
    assert_eq!(c.udp_address, "");
    assert_eq!(c.udp_port, "1");
    let c = parse_text_command("STREAM udp://h: AAPL", "a", 0).unwrap();
    assert_eq!(c.udp_port, "");
    let c = parse_text_command("STREAM udp:///h:/1 AAPL", "a", 0).unwrap();
    assert_eq!(c.udp_address, "/h");
    assert_eq!(c.udp_port, "/1");
}

#[test]
fn written_subscription_reads_back() {
    let tickers = [Ticker::GOOGL, Ticker::NVDA, Ticker::AMZN];
    let list: Vec<&str> = tickers.iter().map(|t| t.as_str()).collect();
    let text = format!("STREAM udp://{}:{} {}", "10.1.2.3", "9999", list.join(","));
    let c = parse_text_command(&text, "1.1.1.1", 65535).unwrap();
    assert_eq!(c.udp_address, "10.1.2.3");
    assert_eq!(c.udp_port, "9999");
    assert_eq!(c.port, "65535");
    assert_eq!(c.tickers, tickers.to_vec());
}

#[test]
fn parses_command_bytes() {
    let c = parse_command_bytes(b"STREAM udp://127.0.0.1:34254 AAPL,TSLA", "10.0.0.9", 1234).unwrap();
    assert_eq!(c.udp_address, "127.0.0.1");
    assert_eq!(c.udp_port, "34254");
    assert_eq!(c.address, "10.0.0.9");
    assert_eq!(c.port, "1234");
    assert_eq!(c.tickers, vec![Ticker::AAPL, Ticker::TSLA]);
}

#[test]
fn invalid_utf8_is_replaced_before_parsing() {
    assert!(parse_command_bytes(b"STREAM udp://h:1 AAPL\xff", "a", 0).is_none());
    assert!(parse_command_bytes(b"\xffSTREAM udp://h:1 AAPL", "a", 0).is_none());
    let c = parse_command_bytes(b"STREAM udp://h:1 AAPL \xff\xfe", "a", 0).unwrap();
    assert_eq!(c.tickers, vec![Ticker::AAPL]);
    let c = parse_command_bytes(b"STREAM udp://h\xc3:1 AAPL", "a", 0).unwrap();
    assert_eq!(c.udp_address, "h\u{FFFD}");
    let c = parse_command_bytes("STREAM udp://h\u{e9}:1 AAPL".as_bytes(), "a", 0).unwrap();
    assert_eq!(c.udp_address, "h\u{e9}");
}
