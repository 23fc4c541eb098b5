use micronuts::protocol::Status;
use micronuts::swapscript::{
    expected_proof_count, parse_token_info, NullDisplay, SwapError, SwapRequest, SwapScript,
    SwapStep, TestHardware, TokenInfoError, XorShift64, BLINDED_OUTPUT_LEN,
};

fn token_info(amount: u64, count: u32) -> Vec<u8> {
    let mut v = vec![3u8];
    v.extend_from_slice(b"abc");
    v.push(3);
    v.extend_from_slice(b"sat");
    v.extend_from_slice(&amount.to_be_bytes());
    v.extend_from_slice(&count.to_be_bytes());
    v
}

#[test]
fn parse_token_info_reads_amount_and_count() {
    assert_eq!(parse_token_info(&token_info(100, 3)), Ok((100, 3)));
    assert_eq!(parse_token_info(&token_info(u64::MAX, 64)), Ok((u64::MAX, 64)));
    let mut extra = token_info(7, 3);
    extra.push(0xEE);
    assert_eq!(parse_token_info(&extra), Ok((7, 3)));
}

#[test]
fn parse_token_info_reports_truncation() {
    assert_eq!(parse_token_info(&[]), Err(TokenInfoError::MintLength));
    assert_eq!(parse_token_info(&[3, b'a', b'b', b'c']), Err(TokenInfoError::UnitLength));
    let full = token_info(100, 3);
    assert_eq!(parse_token_info(&full[..12]), Err(TokenInfoError::Amount));
    assert_eq!(parse_token_info(&full[..full.len() - 1]), Err(TokenInfoError::Count));
    assert_eq!(parse_token_info(&[200]), Err(TokenInfoError::UnitLength));
    assert_eq!(
        TokenInfoError::Amount.message(),
        "token info payload truncated (amount)"
    );
}

#[test]
fn proof_count_is_one_per_power_of_two() {
    assert_eq!(expected_proof_count(0), 0);
    assert_eq!(expected_proof_count(1), 1);
    assert_eq!(expected_proof_count(7), 3);
    assert_eq!(expected_proof_count(64), 1);
    assert_eq!(expected_proof_count(100), 3);
    assert_eq!(expected_proof_count(u64::MAX), 64);
}

#[test]
fn swap_script_happy_path() {
    let (mut script, first) = SwapScript::new(100);
    assert_eq!(first, SwapRequest::Import);
    assert_eq!(script.expected_count, 3);
    assert_eq!(script.on_reply(Status::Success, &[]), Ok(SwapRequest::GetTokenInfo));
    assert_eq!(script.on_reply(Status::Success, &token_info(100, 3)), Ok(SwapRequest::GetBlinded));
    let blinded = vec![2u8; 3 * BLINDED_OUTPUT_LEN];
    assert_eq!(script.on_reply(Status::Success, &blinded), Ok(SwapRequest::SignAndSend));
    assert_eq!(script.on_reply(Status::Success, &[]), Ok(SwapRequest::GetProofs));
    assert_eq!(script.on_reply(Status::Success, b"cashuB..."), Ok(SwapRequest::DecodeExport));
    assert_eq!(script.finish(100, 3, 0), Ok(()));
}

#[test]
fn swap_script_rejects_each_bad_reply() {
    let (mut script, _) = SwapScript::new(100);
    assert_eq!(
        script.on_reply(Status::InvalidPayload, &[]),
        Err(SwapError::ImportFailed(Status::InvalidPayload))
    );
    assert_eq!(script.step, SwapStep::Import);

    let (mut script, _) = SwapScript::new(100);
    script.on_reply(Status::Success, &[]).unwrap();
    assert_eq!(
        script.on_reply(Status::Success, &token_info(99, 3)),
        Err(SwapError::AmountMismatch { reported: 99, expected: 100 })
    );
    assert_eq!(
        script.on_reply(Status::Success, &token_info(100, 4)),
        Err(SwapError::ProofCountMismatch { reported: 4, expected: 3 })
    );
    assert_eq!(
        script.on_reply(Status::Success, &[1]),
        Err(SwapError::TokenInfoMalformed(TokenInfoError::UnitLength))
    );
    script.on_reply(Status::Success, &token_info(100, 3)).unwrap();
    assert_eq!(
        script.on_reply(Status::Success, &[0u8; 98]),
        Err(SwapError::BlindedLength { got: 98, expected: 99 })
    );
    script.on_reply(Status::Success, &[0u8; 99]).unwrap();
    assert_eq!(
        script.on_reply(Status::CryptoError, &[]),
        Err(SwapError::SignaturesRejected(Status::CryptoError))
    );
    script.on_reply(Status::Success, &[]).unwrap();
    assert_eq!(
        script.on_reply(Status::Error, &[]),
        Err(SwapError::ExportFailed(Status::Error))
    );
    assert_eq!(script.finish(99, 3, 0), Err(SwapError::ExportAmount { got: 99, expected: 100 }));
    assert_eq!(script.finish(100, 2, 0), Err(SwapError::ExportProofCount { got: 2, expected: 3 }));
    assert_eq!(script.finish(100, 3, 1), Err(SwapError::MissingDleq(1)));
}

#[test]
fn xorshift_steps() {
    let mut rng = XorShift64::seeded(1);
    assert_eq!(rng.next(), 0x4082_2041);
    assert_eq!(rng.next(), 0x1000_4106_0c01_1441);
}

#[test]
fn test_hardware_rng_is_deterministic() {
    let mut a = TestHardware::new();
    let mut b = TestHardware::new();
    let mut x = [0u8; 10];
    let mut y = [0u8; 10];
    a.rng_fill_bytes(&mut x);
    b.rng_fill_bytes(&mut y);
    assert_eq!(x, y);
    assert_eq!(x, [0xad, 0x4d, 0xf3, 0x0b, 0xae, 0x77, 0x1b, 0xdc, 0x76, 0x60]);
    assert_eq!(a.display().size(), (480, 800));
    assert_eq!(NullDisplay.size(), (480, 800));
}

#[test]
fn test_hardware_has_no_scanner_and_no_touch() {
    let mut hw = TestHardware::new();
    assert!(!hw.is_connected());
    assert_eq!(hw.touch_get(), None);
    assert_eq!(hw.read_scan(), None);
    assert!(hw.trigger().is_ok());
    assert!(hw.deep_sleep_reboot());
    assert!(hw.reinit_scanner().is_ok());
    assert!(hw.factory_heal().is_ok());
    assert!(hw.set_aim(true).is_ok());
}
