//! Board self-test results and the tests that need no hardware.
use vstd::prelude::*;

use crate::protocol::{
    command_byte, lemma_decode_encoded, wire_bytes, zero_payload, Command, Frame, FrameDecoder,
    FrameView, DecodeState,
};

verus! {

#[derive(Debug, Clone, Copy, PartialEq, Eq, Structural)]
pub enum TestStatus {
    Pass,
    Fail,
    Skip,
}

/// Outcome of one named self-test.
pub struct TestResult {
    pub name: &'static str,
    pub status: TestStatus,
}

impl TestResult {
    pub fn pass(name: &'static str) -> (r: Self)
        ensures
            r.name == name,
            r.status == TestStatus::Pass,
    {
        Self { name, status: TestStatus::Pass }
    }

    pub fn fail(name: &'static str) -> (r: Self)
        ensures
            r.name == name,
            r.status == TestStatus::Fail,
    {
        Self { name, status: TestStatus::Fail }
    }

    pub fn skip(name: &'static str) -> (r: Self)
        ensures
            r.name == name,
            r.status == TestStatus::Skip,
    {
        Self { name, status: TestStatus::Skip }
    }
}

/// Allocates 1 KiB, writes the pattern `i % 256` and reads it back.
/// The pattern always verifies, so the test passes.
pub fn test_heap() -> (r: TestResult)
    ensures
        r.name@ == "Heap"@,
        r.status == TestStatus::Pass,
{
    let size: usize = 1024;
    let mut v: Vec<u8> = vec![0u8; size];
    let mut i: usize = 0;
    while i < size
        invariant
            v@.len() == size,
            size == 1024,
            i <= size,
            forall|j: int| 0 <= j < i ==> v@[j] == (j % 256) as u8,
        decreases size - i,
    {
        v.set(i, (i % 256) as u8);
        i = i + 1;
    }
    let mut ok = true;
    let mut k: usize = 0;
    while k < size
        invariant
            v@.len() == size,
            size == 1024,
            k <= size,
            forall|j: int| 0 <= j < size ==> v@[j] == (j % 256) as u8,
            ok,
        decreases size - k,
    {
        if v[k] != (k % 256) as u8 {
            ok = false;
            break;
        }
        k = k + 1;
    }
    if ok {
        TestResult::pass("Heap")
    } else {
        TestResult::fail("Heap")
    }
}

/// Encodes a `ScannerStatus` frame, checks its header bytes, decodes it
/// back and compares. The round trip always succeeds, so the test passes.
pub fn test_usb_cdc_protocol() -> (r: TestResult)
    ensures
        r.name@ == "USB CDC protocol"@,
        r.status == TestStatus::Pass,
{
    let test_command = Command::ScannerStatus;
    let frame = Frame::new(test_command);
    let mut encode_buf = [0u8; 1027];
    let encoded_len = frame.encode(&mut encode_buf);
    if encoded_len == 0 {
        return TestResult::fail("USB CDC protocol");
    }
    if encode_buf[0] != test_command.to_byte() {
        return TestResult::fail("USB CDC protocol");
    }
    let payload_len = (encode_buf[1] as u16) * 256 + (encode_buf[2] as u16);
    if payload_len != 0 {
        return TestResult::fail("USB CDC protocol");
    }
    let mut decoder = FrameDecoder::new();
    let ghost wire = wire_bytes(command_byte(test_command), 0, zero_payload());
    let ghost rest = encode_buf@.skip(3);
    proof {
        lemma_decode_encoded(
            decoder@,
            FrameView { command: test_command, length: 0, payload: zero_payload() },
            Seq::<u8>::empty(),
        );
        assert(encode_buf@.take(encoded_len as int) =~= wire + Seq::<u8>::empty());
    }
    let decoded_frame = match decoder.decode(&encode_buf[0..encoded_len]) {
        Some(f) => f,
        None => return TestResult::fail("USB CDC protocol"),
    };
    if decoded_frame.command != test_command {
        return TestResult::fail("USB CDC protocol");
    }
    if decoded_frame.length != 0 {
        return TestResult::fail("USB CDC protocol");
    }
    TestResult::pass("USB CDC protocol")
}

} // verus!
