use micronuts::command::{
    handle_command, scan_kind, scanner_data_reply, scanner_data_response, scanner_status_response,
    signatures_acceptable, token_info_response, CommandOutcome,
};
use micronuts::protocol::{Response, Status};
use micronuts::qr::decoder::decode_qr;
use micronuts::state::SwapState;
use micronuts::swapscript::parse_token_info;

#[test]
fn token_info_response_lays_out_the_summary() {
    let r = token_info_response(b"https://mint", b"sat", 0x0102_0304_0506_0708, 3);
    assert_eq!(r.status, Status::Success);
    let mut want = vec![12u8];
    want.extend_from_slice(b"https://mint");
    want.push(3);
    want.extend_from_slice(b"sat");
    want.extend_from_slice(&[1, 2, 3, 4, 5, 6, 7, 8]);
    want.extend_from_slice(&[0, 0, 0, 3]);
    assert_eq!(r.payload(), &want[..]);
    assert_eq!(r.length as usize, want.len());
}

#[test]
fn token_info_round_trips_through_the_host_parser() {
    for (amount, count) in [(0u64, 0usize), (100, 3), (u64::MAX, 64), (21, 3)] {
        let r = token_info_response(b"http://localhost:3338", b"sat", amount, count);
        assert_eq!(parse_token_info(r.payload()), Ok((amount, count as u32)));
    }
}

#[test]
fn oversized_token_info_is_a_buffer_overflow() {
    let mint = vec![b'm'; 1008];
    let r = token_info_response(&mint, b"sat", 1, 1);
    assert_eq!(r.status, Status::BufferOverflow);
    assert_eq!(r.length, 0);
    let mint = vec![b'm'; 1007];
    let r = token_info_response(&mint, b"sat", 1, 1);
    assert_eq!(r.status, Status::Success);
    assert_eq!(r.length, 1024);
    // A mint URL longer than 255 bytes wraps its length byte.
    assert_eq!(r.payload()[0], (1007 % 256) as u8);
}

#[test]
fn scanner_status_reports_connection_only() {
    let r = scanner_status_response(true);
    assert_eq!(r.status, Status::Success);
    assert_eq!(r.payload(), &[1, 0, 0]);
    assert_eq!(scanner_status_response(false).payload(), &[0, 0, 0]);
}

#[test]
fn scanner_data_is_kind_then_scan_cut_to_the_frame() {
    let r = scanner_data_response(0x03, b"ur:cashu/1-2/h/d");
    assert_eq!(r.status, Status::Success);
    assert_eq!(r.payload()[0], 0x03);
    assert_eq!(&r.payload()[1..], b"ur:cashu/1-2/h/d");
    let big = vec![7u8; 2000];
    let r = scanner_data_response(0x04, &big);
    assert_eq!(r.length, 1024);
    assert_eq!(r.payload()[0], 0x04);
    assert!(r.payload()[1..].iter().all(|b| *b == 7));
}

fn body(r: &Response) -> Vec<u8> {
    r.payload().to_vec()
}

#[test]
fn scan_kind_bytes() {
    assert_eq!(scan_kind(&decode_qr(b"cashuBabc")), 1);
    assert_eq!(scan_kind(&decode_qr(b"cashuAabc")), 2);
    assert_eq!(scan_kind(&decode_qr(b"ur:cashu/1-2/ab/xyz")), 3);
    assert_eq!(scan_kind(&decode_qr(b"hello")), 0);
    assert_eq!(scan_kind(&decode_qr(&[0xFF, 0xFE])), 4);
}

#[test]
fn scanner_data_reply_with_and_without_scan() {
    let none = scanner_data_reply(None);
    assert_eq!(none.status, Status::NoScanData);
    assert_eq!(none.length, 0);
    let r = scanner_data_reply(Some(b"cashuBxy"));
    assert_eq!(r.status, Status::Success);
    assert_eq!(body(&r), b"\x01cashuBxy".to_vec());
}

#[test]
fn handle_command_transitions() {
    let (s, r) = handle_command(SwapState::Idle, &CommandOutcome::Import { decoded: true });
    assert_eq!((s, r.status), (SwapState::TokenImported, Status::Success));
    let (s, r) = handle_command(SwapState::Idle, &CommandOutcome::Import { decoded: false });
    assert_eq!((s, r.status), (SwapState::Idle, Status::InvalidPayload));
    let (s, r) = handle_command(SwapState::TokenImported, &CommandOutcome::Blinded { points: Some(vec![2u8; 66]) });
    assert_eq!((s, r.status, r.length), (SwapState::BlindedGenerated, Status::Success, 66));
    let (s, r) = handle_command(SwapState::TokenImported, &CommandOutcome::Blinded { points: Some(vec![]) });
    assert_eq!((s, r.status), (SwapState::TokenImported, Status::CryptoError));
    let (s, r) = handle_command(SwapState::Idle, &CommandOutcome::Blinded { points: None });
    assert_eq!((s, r.status), (SwapState::Idle, Status::Error));
    let (s, r) = handle_command(SwapState::TokenImported, &CommandOutcome::Blinded { points: Some(vec![2u8; 33 * 32]) });
    assert_eq!((s, r.status), (SwapState::TokenImported, Status::BufferOverflow));
    let sig = |pending, payload_len, unblinded| CommandOutcome::Signatures { pending, payload_len, unblinded };
    assert_eq!(handle_command(SwapState::Idle, &sig(None, 33, Some(1))).1.status, Status::Error);
    assert_eq!(handle_command(SwapState::BlindedGenerated, &sig(Some(2), 65, Some(2))).1.status, Status::InvalidPayload);
    assert_eq!(handle_command(SwapState::BlindedGenerated, &sig(Some(2), 33, Some(2))).1.status, Status::InvalidPayload);
    assert_eq!(handle_command(SwapState::BlindedGenerated, &sig(Some(2), 66, None)).1.status, Status::CryptoError);
    assert_eq!(handle_command(SwapState::BlindedGenerated, &sig(Some(2), 66, Some(0))).1.status, Status::CryptoError);
    let (s, r) = handle_command(SwapState::BlindedGenerated, &sig(Some(2), 66, Some(2)));
    assert_eq!((s, r.status), (SwapState::ProofsReady, Status::Success));
    let (_, r) = handle_command(SwapState::ProofsReady, &CommandOutcome::Proofs { encoded: Some(b"cashuBtok".to_vec()) });
    assert_eq!((r.status, body(&r)), (Status::Success, b"cashuBtok".to_vec()));
    assert_eq!(handle_command(SwapState::Idle, &CommandOutcome::Proofs { encoded: None }).1.status, Status::Error);
    assert_eq!(handle_command(SwapState::Idle, &CommandOutcome::Trigger { ok: false }).1.status, Status::ScannerNotConnected);
    assert_eq!(handle_command(SwapState::Idle, &CommandOutcome::Trigger { ok: true }).1.status, Status::Success);
    assert_eq!(handle_command(SwapState::Idle, &CommandOutcome::Heal { factory: true, ok: false }).1.status, Status::ScannerNotConnected);
    assert_eq!(handle_command(SwapState::Idle, &CommandOutcome::Data { last: None }).1.status, Status::NoScanData);
    let r = handle_command(SwapState::Idle, &CommandOutcome::ScannerStatus { connected: true }).1;
    assert_eq!(body(&r), vec![1, 0, 0]);
    let r = handle_command(SwapState::Idle, &CommandOutcome::TokenInfo { token: None }).1;
    assert_eq!(r.status, Status::Error);
    let r = handle_command(SwapState::TokenImported, &CommandOutcome::TokenInfo { token: Some((b"m".to_vec(), b"sat".to_vec(), 5, 1)) }).1;
    assert_eq!(body(&r), vec![1, b'm', 3, b's', b'a', b't', 0, 0, 0, 0, 0, 0, 0, 5, 0, 0, 0, 1]);
    assert!(signatures_acceptable(Some(1), 33));
    assert!(!signatures_acceptable(Some(1), 34));
}
