use micronuts::protocol::{Command, Frame, FrameDecoder, Response, Status, MAX_PAYLOAD_SIZE};

#[test]
fn protocol_test_frame_encode_decode() {
    let payload = b"hello";
    let frame = Frame::with_payload(Command::ImportToken, payload).unwrap();

    let mut buf = [0u8; 260];
    let len = frame.encode(&mut buf);

    assert_eq!(len, 3 + payload.len());
    assert_eq!(buf[0], 0x01);
    assert_eq!(buf[1], 0);
    assert_eq!(buf[2], 5);
    assert_eq!(&buf[3..8], payload);
}

#[test]
fn protocol_test_response_encode() {
    let payload = b"world";
    let response = Response::with_payload(Status::Success, payload).unwrap();

    let mut buf = [0u8; 260];
    let len = response.encode(&mut buf);

    assert_eq!(len, 3 + payload.len());
    assert_eq!(buf[0], 0x00);
    assert_eq!(buf[1], 0);
    assert_eq!(buf[2], 5);
    assert_eq!(&buf[3..8], payload);
}

#[test]
fn test_invalid_command_byte_after_full_payload_does_not_panic() {
    let mut decoder = FrameDecoder::new();
    let mut evil = vec![0xFF, 0x04, 0x00];
    evil.extend(std::iter::repeat(0x41).take(MAX_PAYLOAD_SIZE));
    evil.push(0x42);
    assert!(decoder.decode(&evil).is_none());

    let frame = Frame::with_payload(Command::GetTokenInfo, b"ok").unwrap();
    let mut buf = [0u8; 260];
    let len = frame.encode(&mut buf);
    assert_eq!(
        decoder.decode(&buf[..len]).map(|f| f.command),
        Some(Command::GetTokenInfo)
    );
}

#[test]
fn test_invalid_command_byte_walkup_does_not_panic() {
    let mut decoder = FrameDecoder::new();
    let mut evil = vec![0xFF, 0x00, 0x01, 0x61];
    evil.extend(std::iter::repeat(0x61).take(MAX_PAYLOAD_SIZE + 8));
    assert!(decoder.decode(&evil).is_none());

    let frame = Frame::with_payload(Command::ScannerStatus, b"").unwrap();
    let mut buf = [0u8; 260];
    let len = frame.encode(&mut buf);
    assert_eq!(
        decoder.decode(&buf[..len]).map(|f| f.command),
        Some(Command::ScannerStatus)
    );
}

#[test]
fn test_invalid_command_byte_zero_length_does_not_panic() {
    let mut decoder = FrameDecoder::new();
    assert!(decoder.decode(&[0xFF, 0x00, 0x00]).is_none());

    let frame = Frame::with_payload(Command::GetProofs, b"x").unwrap();
    let mut buf = [0u8; 260];
    let len = frame.encode(&mut buf);
    assert_eq!(
        decoder.decode(&buf[..len]).map(|f| f.command),
        Some(Command::GetProofs)
    );
}

#[test]
fn protocol_test_decoder_simple() {
    let mut decoder = FrameDecoder::new();

    let frame = Frame::with_payload(Command::GetTokenInfo, b"test").unwrap();
    let mut buf = [0u8; 260];
    let len = frame.encode(&mut buf);

    let decoded = decoder.decode(&buf[..len]).unwrap();

    assert_eq!(decoded.command, Command::GetTokenInfo);
    assert_eq!(decoded.length, 4);
    assert_eq!(decoded.payload(), b"test");
}

#[test]
fn protocol_test_decoder_partial() {
    let mut decoder = FrameDecoder::new();

    let result = decoder.decode(&[0x02]);
    assert!(result.is_none());

    let result = decoder.decode(&[0x00]);
    assert!(result.is_none());

    let result = decoder.decode(&[0x02]);
    assert!(result.is_none());

    let result = decoder.decode(&[0xAB]);
    assert!(result.is_none());

    let frame = decoder.decode(&[0xCD]).unwrap();
    assert_eq!(frame.command, Command::GetTokenInfo);
    assert_eq!(frame.payload(), &[0xAB, 0xCD]);
}

#[test]
fn protocol_test_decoder_zero_length_payload() {
    let mut decoder = FrameDecoder::new();

    let frame = Frame::new(Command::GetProofs);
    let mut buf = [0u8; 260];
    let len = frame.encode(&mut buf);

    let decoded = decoder.decode(&buf[..len]).unwrap();
    assert_eq!(decoded.command, Command::GetProofs);
    assert_eq!(decoded.length, 0);
}

#[test]
fn protocol_encode_into_short_buffer_writes_nothing() {
    let frame = Frame::with_payload(Command::GetBlinded, b"abcdef").unwrap();
    let mut buf = [0x77u8; 8];
    assert_eq!(frame.encode(&mut buf), 0);
    assert_eq!(buf, [0x77u8; 8]);
    assert_eq!(frame.encoded_size(), 9);
}

#[test]
fn protocol_oversized_payload_is_rejected() {
    let big = vec![0u8; MAX_PAYLOAD_SIZE + 1];
    assert!(Frame::with_payload(Command::ImportToken, &big).is_none());
    assert!(Response::with_payload(Status::Error, &big).is_none());
    let exact = vec![7u8; MAX_PAYLOAD_SIZE];
    assert_eq!(
        Frame::with_payload(Command::ImportToken, &exact).unwrap().length as usize,
        MAX_PAYLOAD_SIZE
    );
}

#[test]
fn protocol_oversized_length_resets_decoder() {
    let mut decoder = FrameDecoder::new();
    // length 0x0401 > 1024: rejected, decoder back to idle
    assert!(decoder.decode(&[0x01, 0x04, 0x01]).is_none());
    let decoded = decoder.decode(&[0x05, 0x00, 0x00]).unwrap();
    assert_eq!(decoded.command, Command::GetProofs);
}

#[test]
fn protocol_decode_stops_at_first_frame() {
    let mut decoder = FrameDecoder::new();
    let decoded = decoder.decode(&[0x02, 0x00, 0x01, 0x09, 0x03, 0x00, 0x00]).unwrap();
    assert_eq!(decoded.command, Command::GetTokenInfo);
    assert_eq!(decoded.payload(), &[0x09]);
}

#[test]
fn protocol_command_and_status_bytes() {
    assert_eq!(Command::from_byte(0x12), Some(Command::ScannerData));
    assert_eq!(Command::from_byte(0x06), None);
    assert_eq!(Command::ScannerTrigger.to_byte(), 0x11);
    assert_eq!(Status::Error.to_byte(), 0xFF);
    assert_eq!(Status::NoScanData.to_byte(), 0x12);
    assert_eq!(Status::Success.to_byte(), 0x00);
}

#[test]
fn protocol_heal_commands() {
    assert_eq!(Command::from_byte(0x13), Some(Command::ScannerHeal));
    assert_eq!(Command::from_byte(0x14), Some(Command::ScannerFactoryHeal));
    assert_eq!(Command::ScannerHeal.to_byte(), 0x13);
    assert_eq!(Command::ScannerFactoryHeal.to_byte(), 0x14);
    assert_eq!(Command::from_byte(0x15), None);
}

fn first_frame_per_byte(data: &[u8]) -> Option<(Command, u16, Vec<u8>)> {
    let mut d = FrameDecoder::new();
    for b in data {
        if let Some(f) = d.decode(&[*b]) {
            return Some((f.command, f.length, f.payload().to_vec()));
        }
    }
    None
}

#[test]
fn protocol_chunking_never_changes_first_frame() {
    let inputs: Vec<Vec<u8>> = vec![
        vec![0xFF, 0x00, 0x00, 0x02, 0x00, 0x00],
        vec![0x01, 0x04, 0x01, 0x05, 0x00, 0x01, 0x07],
        vec![0xFF, 0x00, 0x01, 0x61, 0x61, 0x10, 0x00, 0x00],
        vec![0x02, 0x00, 0x02, 0x61],
    ];
    for data in inputs {
        let mut whole = FrameDecoder::new();
        let w = whole.decode(&data).map(|f| (f.command, f.length, f.payload().to_vec()));
        assert_eq!(w, first_frame_per_byte(&data));
        for k in 0..=data.len() {
            let mut split = FrameDecoder::new();
            let s = match split.decode(&data[..k]) {
                Some(f) => Some((f.command, f.length, f.payload().to_vec())),
                None => split.decode(&data[k..]).map(|f| (f.command, f.length, f.payload().to_vec())),
            };
            assert_eq!(s, w);
        }
    }
    let mut d = FrameDecoder::new();
    assert_eq!(d.decode(&[0xFF, 0x00, 0x00, 0x02, 0x00, 0x00]).map(|f| f.command), Some(Command::GetTokenInfo));
}

#[test]
fn protocol_fresh_decoders_agree_byte_by_byte() {
    let data = [0x01, 0x04, 0x01, 0xFF, 0x00, 0x00, 0x05, 0x00, 0x01, 0x2A];
    let mut whole = FrameDecoder::new();
    let w = whole.decode(&data).map(|f| (f.command, f.length, f.payload().to_vec()));
    assert_eq!(w, Some((Command::GetProofs, 1, vec![0x2A])));
    assert_eq!(first_frame_per_byte(&data), w);
}
