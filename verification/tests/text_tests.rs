use quote_stream::text::{
    chars_of, decimal_string, is_white_space_char, parse_bounded, split_at_char, split_words,
    string_from_chars,
};

fn chars(s: &str) -> Vec<char> {
    s.chars().collect()
}

fn pieces(v: Vec<Vec<char>>) -> Vec<String> {
    v.into_iter().map(|w| w.into_iter().collect()).collect()
}

#[test]
fn white_space_matches_std_for_every_char() {
    for code in 0u32..=0x10FFFF {
        if let Some(c) = char::from_u32(code) {
            assert_eq!(is_white_space_char(c), c.is_whitespace(), "code point {:#x}", code);
        }
    }
}

#[test]
fn words_match_split_whitespace() {
    let samples = [
        "",
        "   ",
        "STREAM udp://127.0.0.1:34254 AAPL,TSLA",
        "  \tSTREAM\n\nudp://h:1   AAPL  extra ",
        "a\u{3000}b\u{a0}c\u{2028}d",
        "x",
        " x ",
    ];
    for s in samples {
        let expected: Vec<String> = s.trim().split_whitespace().map(|w| w.to_string()).collect();
        assert_eq!(pieces(split_words(&chars(s))), expected, "sample {:?}", s);
    }
}

#[test]
fn split_matches_str_split() {
    let samples = ["", ",", "AAPL,TSLA", ",AAPL,,TSLA,", "no separator", "a:b:c"];
    for s in samples {
        for sep in [',', ':'] {
            let expected: Vec<String> = s.split(sep).map(|w| w.to_string()).collect();
            assert_eq!(pieces(split_at_char(&chars(s), sep)), expected, "sample {:?}", s);
        }
    }
}

#[test]
fn decimal_matches_to_string() {
    let values = [0u64, 1, 9, 10, 11, 99, 100, 4294967295, 4294967296, 1700000000000, u64::MAX];
    for v in values {
        assert_eq!(decimal_string(v), v.to_string());
    }
    for v in 0u64..2000 {
        assert_eq!(decimal_string(v), v.to_string());
    }
}

#[test]
fn parse_matches_str_parse_u32() {
    let samples = [
        "", "+", "-", "0", "7", "+7", "-7", "007", "4294967295", "4294967296", "12a", " 1", "1 ",
        "++1", "99999999999999999999",
    ];
    for s in samples {
        let expected = s.parse::<u32>().ok().map(|v| v as u64);
        assert_eq!(parse_bounded(&chars(s), u32::MAX as u64), expected, "sample {:?}", s);
    }
}

#[test]
fn parse_matches_str_parse_u64() {
    let samples = ["18446744073709551615", "18446744073709551616", "+0", "1700000000000", "x"];
    for s in samples {
        let expected = s.parse::<u64>().ok();
        assert_eq!(parse_bounded(&chars(s), u64::MAX), expected, "sample {:?}", s);
    }
}

#[test]
fn chars_round_trip_through_string() {
    let s = "héllo → wörld";
    assert_eq!(chars_of(s), chars(s));
    assert_eq!(string_from_chars(&chars_of(s)), s);
}
