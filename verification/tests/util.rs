use micronuts::util::{decode_hex, encode_hex};

#[test]
fn encode_hex_is_lower_case_two_digits_per_byte() {
    assert_eq!(encode_hex(&[]), "");
    assert_eq!(encode_hex(&[0x00, 0xab, 0xff, 0x10]), "00abff10");
}

#[test]
fn decode_hex_reads_both_cases() {
    assert_eq!(decode_hex(""), Some(vec![]));
    assert_eq!(decode_hex("00abff10"), Some(vec![0x00, 0xab, 0xff, 0x10]));
    assert_eq!(decode_hex("ABcd"), Some(vec![0xab, 0xcd]));
}

#[test]
fn decode_hex_rejects_odd_length_and_non_hex() {
    assert_eq!(decode_hex("abc"), None);
    assert_eq!(decode_hex("zz"), None);
    assert_eq!(decode_hex("00g0"), None);
    assert_eq!(decode_hex("-1"), None);
}

#[test]
fn decode_hex_takes_a_plus_sign_like_from_str_radix() {
    assert_eq!(decode_hex("+a"), Some(vec![0x0a]));
    assert_eq!(decode_hex("++"), None);
}

#[test]
fn hex_round_trip() {
    let bytes: Vec<u8> = (0..=255u8).collect();
    assert_eq!(decode_hex(&encode_hex(&bytes)), Some(bytes));
}
