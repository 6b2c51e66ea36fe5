use http_server::ascii::{
    find_byte, find_line_end, is_blank_byte, parse_length, same_bytes, to_lower, to_lowercase, trim,
};

#[test]
fn blank_bytes_are_space_and_tab_to_carriage_return() {
    for b in 0u8..=255 {
        assert_eq!(is_blank_byte(b), b == b' ' || (9..=13).contains(&b), "{}", b);
    }
}

#[test]
fn only_upper_case_letters_are_folded() {
    for b in 0u8..=255 {
        assert_eq!(to_lower(b), b.to_ascii_lowercase(), "{}", b);
    }
    assert_eq!(to_lowercase(b"Content-LENGTH: 5 \xc3\x84"), b"content-length: 5 \xc3\x84".to_vec());
    assert_eq!(to_lowercase(b""), Vec::<u8>::new());
}

#[test]
fn first_byte_is_found() {
    assert_eq!(find_byte(b"a b c", b' '), Some(1));
    assert_eq!(find_byte(b" a", b' '), Some(0));
    assert_eq!(find_byte(b"abc", b' '), None);
    assert_eq!(find_byte(b"", b' '), None);
    assert_eq!(find_byte(b"ab:", b':'), Some(2));
}

#[test]
fn first_line_ends_at_the_first_crlf() {
    assert_eq!(find_line_end(b"abc\r\ndef\r\n"), Some(3));
    assert_eq!(find_line_end(b"\r\n"), Some(0));
    assert_eq!(find_line_end(b"a\rb\nc\n\r\r\n"), Some(7));
    assert_eq!(find_line_end(b"abc\r"), None);
    assert_eq!(find_line_end(b"abc\n"), None);
    assert_eq!(find_line_end(b"\r"), None);
    assert_eq!(find_line_end(b""), None);
}

#[test]
fn blanks_are_trimmed_at_both_ends_only() {
    assert_eq!(trim(b"  a b \t\r\n"), b"a b");
    assert_eq!(trim(b"a"), b"a");
    assert_eq!(trim(b"\x0b\x0ca\x0b"), b"a");
    assert_eq!(trim(b" \t "), b"");
    assert_eq!(trim(b""), b"");
    assert_eq!(trim(b"\xc2\xa0a\x00 "), b"\xc2\xa0a\x00");
}

#[test]
fn same_bytes_are_told_from_others() {
    assert!(same_bytes(b"", b""));
    assert!(same_bytes(b"get", b"get"));
    assert!(!same_bytes(b"get", b"ge"));
    assert!(!same_bytes(b"get", b"gex"));
    assert!(!same_bytes(b"get", b"GET"));
}

#[test]
fn lengths_are_decimal_numbers() {
    assert_eq!(parse_length(b"0"), Some(0));
    assert_eq!(parse_length(b"7"), Some(7));
    assert_eq!(parse_length(b"1234567890"), Some(1234567890));
    assert_eq!(parse_length(b"000012"), Some(12));
    assert_eq!(parse_length(b"+12"), Some(12));
    assert_eq!(parse_length(usize::MAX.to_string().as_bytes()), Some(usize::MAX));
}

#[test]
fn other_texts_are_no_lengths() {
    for text in ["", "+", "-1", "++1", "+-1", "1+", " 1", "1 ", "12a", "a", "1_000", "0x1f", "1e3"] {
        assert_eq!(parse_length(text.as_bytes()), None, "{:?}", text);
    }
    let too_large = format!("{}0", usize::MAX);
    assert_eq!(parse_length(too_large.as_bytes()), None);
    let next = format!("{}", usize::MAX as u128 + 1);
    assert_eq!(parse_length(next.as_bytes()), None);
}

#[test]
fn lengths_agree_with_the_standard_parser() {
    for text in ["0", "+0", "42", "+42", "007", "", "+", "-0", "4 2", "18446744073709551616"] {
        assert_eq!(parse_length(text.as_bytes()), text.parse::<usize>().ok(), "{:?}", text);
    }
}
