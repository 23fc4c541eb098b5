use micronuts::qr::decoder::{decode_qr, QrPayload, UrDecoder};

fn ur(index: u32, total: u32, hash: &str, data: &str) -> QrPayload {
    decode_qr(format!("ur:cashu/{index}-{total}/{hash}/{data}").as_bytes())
}

#[test]
fn decode_qr_classifies_by_prefix_and_encoding() {
    assert!(matches!(decode_qr(b"cashuBo2F0gaJhaUg"), QrPayload::CashuV4 { .. }));
    assert!(matches!(decode_qr(b"cashuA{\"token\":[]}"), QrPayload::CashuV3 { .. }));
    assert!(matches!(decode_qr(b"https://example.com"), QrPayload::PlainText(_)));
    assert!(matches!(decode_qr("grüß".as_bytes()), QrPayload::PlainText(_)));
    assert!(matches!(decode_qr(&[0xff, 0x00]), QrPayload::Binary(_)));
    assert!(matches!(decode_qr(b"ur:\xff"), QrPayload::Binary(_)));
    let p = decode_qr(b"cashuBxyz");
    assert!(p.is_cashu());
    assert!(!p.is_ur());
    assert_eq!(p.raw_data(), b"cashuBxyz");
    assert_eq!(p.payload_type_name(), "Cashu V4 Token");
    assert_eq!(decode_qr(&[0x80]).payload_type_name(), "Binary Data");
}

#[test]
fn ur_fragment_fields_are_parsed() {
    match ur(1, 5, "abc123", "encoded/data") {
        QrPayload::UrFragment { index, total, hash, data } => {
            assert_eq!(index, 1);
            assert_eq!(total, 5);
            assert_eq!(hash, "abc123");
            assert_eq!(data, b"encoded/data");
        }
        other => panic!("not a fragment: {other:?}"),
    }
    let p = decode_qr(b"ur:CaShU/+2-0003/h");
    match &p {
        QrPayload::UrFragment { index, total, hash, data } => {
            assert_eq!((*index, *total), (2, 3));
            assert_eq!(hash, "h");
            assert!(data.is_empty());
        }
        other => panic!("not a fragment: {other:?}"),
    }
    assert!(p.is_ur());
    assert_eq!(p.payload_type_name(), "UR Fragment");
}

#[test]
fn malformed_ur_text_stays_plain_text() {
    for text in [
        "ur:bytes/1-2/h/d",
        "ur:cashu/1-2",
        "ur:cashu/1/h/d",
        "ur:cashu/1-2-3/h/d",
        "ur:cashu/x-2/h/d",
        "ur:cashu/1-/h/d",
        "ur:cashu/-1-2/h/d",
        "ur:cashu/1-4294967296/h/d",
        "ur:/cashu/1-2/h/d",
    ] {
        assert!(matches!(decode_qr(text.as_bytes()), QrPayload::PlainText(_)), "{text}");
    }
    assert!(matches!(
        decode_qr(b"ur:cashu/4294967295-1/h/d"),
        QrPayload::UrFragment { index: 4294967295, .. }
    ));
}

#[test]
fn ur_decoder_reassembles_out_of_order() {
    let mut dec = UrDecoder::new();
    assert!(!dec.is_active());
    assert_eq!(dec.progress(), (0, 0));
    assert_eq!(dec.feed(&ur(2, 3, "h1", "BB")), None);
    assert!(dec.is_active());
    assert_eq!(dec.progress(), (1, 3));
    assert_eq!(dec.feed(&ur(3, 3, "h1", "CC")), None);
    assert!(!dec.is_complete());
    assert_eq!(dec.feed(&ur(1, 3, "h1", "AA")), Some(b"AABBCC".to_vec()));
    assert!(dec.is_complete());
    assert_eq!(dec.progress(), (3, 3));
}

#[test]
fn ur_decoder_ignores_duplicates_strangers_and_other_payloads() {
    let mut dec = UrDecoder::default();
    assert_eq!(dec.feed(&ur(1, 2, "h1", "AA")), None);
    assert_eq!(dec.feed(&ur(1, 2, "h1", "XX")), None);
    assert_eq!(dec.progress(), (1, 2));
    assert_eq!(dec.feed(&ur(2, 2, "other", "ZZ")), None);
    assert_eq!(dec.progress(), (1, 2));
    assert_eq!(dec.feed(&ur(9, 2, "h1", "ZZ")), None);
    assert_eq!(dec.progress(), (1, 2));
    assert_eq!(dec.feed(&decode_qr(b"hello")), None);
    assert_eq!(dec.feed(&ur(2, 2, "h1", "BB")), Some(b"AABB".to_vec()));
    dec.reset();
    assert!(!dec.is_active());
    assert_eq!(dec.feed(&ur(1, 1, "h2", "one")), Some(b"one".to_vec()));
}

#[test]
fn payload_descriptions() {
    assert_eq!(decode_qr(b"cashuBabc").to_string(), "CashuV4(9 bytes)");
    assert_eq!(decode_qr(b"cashuA{}").to_string(), "CashuV3(8 bytes)");
    assert_eq!(ur(12, 340, "h", "x").to_string(), "UR Fragment 12/340");
    assert_eq!(decode_qr(b"hello").to_string(), "PlainText(5 bytes)");
    assert_eq!(decode_qr(&[0xff; 1234]).to_string(), "Binary(1234 bytes)");
    assert_eq!(decode_qr(b"").to_string(), "PlainText(0 bytes)");
}
