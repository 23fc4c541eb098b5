use micronuts::usb::{Command, Frame, FrameDecoder, Response, Status, MAX_PAYLOAD_SIZE};

#[test]
fn usb_test_frame_encode_decode() {
    let payload = b"hello";
    let frame = Frame::with_payload(Command::ImportToken, payload).unwrap();

    let mut buf = [0u8; 260];
    let len = frame.encode(&mut buf);

    assert_eq!(len, 3 + payload.len());
    assert_eq!(buf[0], 0x01);
    assert_eq!(buf[1], 0);
    assert_eq!(buf[2], 5);
    assert_eq!(&buf[3..8], payload);
}

#[test]
fn usb_test_response_encode() {
    let payload = b"world";
    let response = Response::with_payload(Status::Success, payload).unwrap();

    let mut buf = [0u8; 260];
    let len = response.encode(&mut buf);

    assert_eq!(len, 3 + payload.len());
    assert_eq!(buf[0], 0x00);
    assert_eq!(buf[1], 0);
    assert_eq!(buf[2], 5);
    assert_eq!(&buf[3..8], payload);
}

#[test]
fn usb_test_decoder_simple() {
    let mut decoder = FrameDecoder::new();

    let frame = Frame::with_payload(Command::GetTokenInfo, b"test").unwrap();
    let mut buf = [0u8; 260];
    let len = frame.encode(&mut buf);

    let decoded = decoder.decode(&buf[..len]).unwrap();

    assert_eq!(decoded.command, Command::GetTokenInfo);
    assert_eq!(decoded.length, 4);
    assert_eq!(decoded.payload(), b"test");
}

#[test]
fn usb_test_decoder_partial() {
    let mut decoder = FrameDecoder::new();

    let result = decoder.decode(&[0x02]);
    assert!(result.is_none());

    let result = decoder.decode(&[0x00]);
    assert!(result.is_none());

    let result = decoder.decode(&[0x02]);
    assert!(result.is_none());

    let result = decoder.decode(&[0xAB]);
    assert!(result.is_none());

    let frame = decoder.decode(&[0xCD]).unwrap();
    assert_eq!(frame.command, Command::GetTokenInfo);
    assert_eq!(frame.payload(), &[0xAB, 0xCD]);
}

#[test]
fn usb_test_decoder_zero_length_payload() {
    let mut decoder = FrameDecoder::new();

    let frame = Frame::new(Command::GetProofs);
    let mut buf = [0u8; 260];
    let len = frame.encode(&mut buf);

    let decoded = decoder.decode(&buf[..len]).unwrap();
    assert_eq!(decoded.command, Command::GetProofs);
    assert_eq!(decoded.length, 0);
}

#[test]
fn usb_payload_limit_is_256() {
    assert_eq!(MAX_PAYLOAD_SIZE, 256);
    assert!(Frame::with_payload(Command::ImportToken, &[0u8; 257]).is_none());
    assert!(Command::from_byte(0x10).is_none());
}

#[test]
fn usb_unknown_zero_length_command_is_not_a_frame() {
    let mut decoder = FrameDecoder::new();
    assert!(decoder.decode(&[0x09, 0x00, 0x00]).is_none());
}

#[test]
fn usb_decoder_resyncs_after_unknown_command_frame() {
    let mut decoder = FrameDecoder::new();
    let mut evil = vec![0xFF, 0x01, 0x00];
    evil.extend(std::iter::repeat(0x41).take(256));
    assert!(decoder.decode(&evil).is_none());
    let f = decoder.decode(&[0x02, 0x00, 0x02, b'o', b'k']).unwrap();
    assert_eq!(f.command, Command::GetTokenInfo);
    assert_eq!(f.payload(), b"ok");
}

#[test]
fn usb_decoder_goes_on_after_rejected_frame_in_one_chunk() {
    let mut decoder = FrameDecoder::new();
    let f = decoder.decode(&[0xFF, 0x00, 0x00, 0x02, 0x00, 0x00]).unwrap();
    assert_eq!(f.command, Command::GetTokenInfo);
}
