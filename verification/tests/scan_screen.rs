use micronuts::qr::decoder::decode_qr;
use micronuts::scan_screen::{decoded_scan_screen, TokenCard, TokenSummary};

#[test]
fn short_text_is_mirrored() {
    let s = decoded_scan_screen(&decode_qr(b"hello"), None);
    assert_eq!(s.mirror, Some(b"hello".to_vec()));
    assert!(s.lines.is_empty());
}

#[test]
fn long_text_is_split_into_lines() {
    let data = vec![b'a'; 250];
    let s = decoded_scan_screen(&decode_qr(&data), None);
    assert_eq!(s.mirror, None);
    assert_eq!(s.chip, "TEXT");
    assert_eq!(s.byte_label, "250 BYTES");
    assert_eq!(s.lines.len(), 6);
    assert_eq!(s.lines[0].len(), 44);
    assert_eq!(s.lines[5].len(), 250 - 5 * 44);
    assert!(!s.cut);
    assert!(matches!(s.card, TokenCard::Absent));
}

#[test]
fn data_is_cut_at_the_row_limit() {
    let data = vec![b'x'; 44 * 30];
    let s = decoded_scan_screen(&decode_qr(&data), None);
    assert_eq!(s.lines.len(), 25);
    assert!(s.cut);
}

#[test]
fn lines_do_not_split_characters() {
    let mut data = vec![b'a'; 43];
    data.extend_from_slice("é".as_bytes());
    data.extend(std::iter::repeat(b'b').take(200));
    let s = decoded_scan_screen(&decode_qr(&data), None);
    assert_eq!(s.lines[0].len(), 43);
    assert_eq!(s.lines[1][..2], *"é".as_bytes());
}

#[test]
fn ur_fragment_chip() {
    let s = decoded_scan_screen(&decode_qr(b"ur:cashu/3-12/ab/xyz"), None);
    assert_eq!(s.chip, "UR 3/12");
    assert_eq!(s.lines, vec![b"xyz".to_vec()]);
    assert_eq!(s.byte_label, "3 BYTES");
}

#[test]
fn binary_data_shows_placeholder() {
    let data = [0xFFu8, 0xFE, 0x00];
    let s = decoded_scan_screen(&decode_qr(&data), None);
    assert_eq!(s.chip, "BINARY");
    assert_eq!(s.lines, vec![b"<binary data>".to_vec()]);
    assert_eq!(s.byte_label, "3 BYTES");
}

#[test]
fn cashu_v4_token_card() {
    let summary = TokenSummary {
        amount: 2100,
        unit: b"satoshis".to_vec(),
        mint: b"https://mint.example.com/very/long/path".to_vec(),
        proof_count: 3,
        keyset: Some(b"00ad268c4d1f5826".to_vec()),
    };
    let s = decoded_scan_screen(&decode_qr(b"cashuBo2F0gaJhaUgA"), Some(summary));
    assert_eq!(s.chip, "CASHU V4");
    match s.card {
        TokenCard::Summary { amount, unit, mint, proofs, keyset } => {
            assert_eq!(amount, "2100");
            assert_eq!(unit, b"satoshis".to_vec());
            assert_eq!(mint, b"https://mint.example.com/v".to_vec());
            assert_eq!(proofs, "3");
            assert_eq!(keyset, Some(b"00ad268c4d1f5826".to_vec()));
        }
        _ => panic!("expected a token card"),
    }
    let bad = decoded_scan_screen(&decode_qr(b"cashuBxx"), None);
    assert!(matches!(bad.card, TokenCard::DecodeError));
}
