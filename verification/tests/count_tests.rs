use ramp_pipeline::count::parse_count;

#[test]
fn count_of_digits() {
    assert_eq!(parse_count(b"5"), Some(5));
    assert_eq!(parse_count(b"0"), Some(0));
    assert_eq!(parse_count(b"12345"), Some(12345));
    assert_eq!(parse_count(b"007"), Some(7));
}

#[test]
fn count_with_plus_sign() {
    assert_eq!(parse_count(b"+5"), Some(5));
    assert_eq!(parse_count(b"+0"), Some(0));
}

#[test]
fn count_without_digits_is_none() {
    assert_eq!(parse_count(b""), None);
    assert_eq!(parse_count(b"+"), None);
    assert_eq!(parse_count(b"++5"), None);
}

#[test]
fn count_with_other_bytes_is_none() {
    assert_eq!(parse_count(b"five"), None);
    assert_eq!(parse_count(b"5a"), None);
    assert_eq!(parse_count(b"a5"), None);
    assert_eq!(parse_count(b"-1"), None);
    assert_eq!(parse_count(b" 5"), None);
    assert_eq!(parse_count(b"5 "), None);
    assert_eq!(parse_count(b"5.0"), None);
    assert_eq!(parse_count(b"5+"), None);
    assert_eq!(parse_count(&[b'5', 0xff]), None);
}

#[test]
fn count_at_the_limit_of_the_word() {
    let largest = usize::MAX.to_string();
    assert_eq!(parse_count(largest.as_bytes()), Some(usize::MAX));
    let padded = format!("000{}", usize::MAX);
    assert_eq!(parse_count(padded.as_bytes()), Some(usize::MAX));
}

#[test]
fn count_beyond_the_word_is_none() {
    let beyond = (usize::MAX as u128 + 1).to_string();
    assert_eq!(parse_count(beyond.as_bytes()), None);
    let far = format!("{}0", usize::MAX);
    assert_eq!(parse_count(far.as_bytes()), None);
    assert_eq!(parse_count(b"99999999999999999999999999999999999999"), None);
}

#[test]
fn count_in_hexadecimal() {
    assert_eq!(parse_count(b"0x10"), Some(16));
    assert_eq!(parse_count(b"0x0"), Some(0));
    assert_eq!(parse_count(b"0x1f"), Some(31));
    assert_eq!(parse_count(b"0x1F"), Some(31));
    assert_eq!(parse_count(b"0xabcdef"), Some(0xabcdef));
    assert_eq!(parse_count(b"0xABCDEF"), Some(0xabcdef));
    assert_eq!(parse_count(b"0x0009"), Some(9));
    assert_eq!(parse_count(b"0x+1f"), Some(31));
}

#[test]
fn hexadecimal_without_digits_or_with_other_bytes_is_none() {
    assert_eq!(parse_count(b"0x"), None);
    assert_eq!(parse_count(b"0x+"), None);
    assert_eq!(parse_count(b"0xg"), None);
    assert_eq!(parse_count(b"0x1g"), None);
    assert_eq!(parse_count(b"0x-1"), None);
    assert_eq!(parse_count(b"0x 1"), None);
    assert_eq!(parse_count(b"0x0x1"), None);
}

#[test]
fn hexadecimal_digits_need_the_prefix() {
    assert_eq!(parse_count(b"1f"), None);
    assert_eq!(parse_count(b"ff"), None);
    assert_eq!(parse_count(b"0X10"), None);
    assert_eq!(parse_count(b"+0x10"), None);
    assert_eq!(parse_count(b"x10"), None);
}

#[test]
fn hexadecimal_at_the_limit_of_the_word() {
    let largest = format!("0x{:x}", usize::MAX);
    assert_eq!(parse_count(largest.as_bytes()), Some(usize::MAX));
    let upper = format!("0x{:X}", usize::MAX);
    assert_eq!(parse_count(upper.as_bytes()), Some(usize::MAX));
    let beyond = format!("0x{:x}", usize::MAX as u128 + 1);
    assert_eq!(parse_count(beyond.as_bytes()), None);
    let far = format!("0x{:x}0", usize::MAX);
    assert_eq!(parse_count(far.as_bytes()), None);
}

fn standard(text: &str) -> Option<usize> {
    match text.strip_prefix("0x") {
        Some(digits) => usize::from_str_radix(digits, 16).ok(),
        None => text.parse::<usize>().ok(),
    }
}

#[test]
fn count_agrees_with_the_standard_parsers() {
    let texts = [
        "5", "+5", "", "+", "-5", "12a", "18446744073709551615", "18446744073709551616", "0000",
        " 1", "0x", "0x1", "0x+1", "0x-1", "0xff", "0xFf", "0xffffffffffffffff",
        "0x10000000000000000", "0X1", "x", "0", "0x0", "00x1", "0xg", "1e3", "1_000",
    ];
    for text in texts {
        assert_eq!(parse_count(text.as_bytes()), standard(text));
    }
}
