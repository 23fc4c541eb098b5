//! Pieces of the host swap harness that run without a device: the
//! deterministic RNG of the in-process test hardware and the parser of the
//! `GetTokenInfo` reply.
use vstd::prelude::*;

use crate::prng::{fill_from_stream, xorshift64, xorshift64_bytes, xorshift64_iter, xorshift64_step};
use crate::protocol::Status;
use crate::hardware::{ScanError, TouchPoint};
use vstd::arithmetic::power2::pow2;
use vstd::arithmetic::power2::lemma_pow2_unfold;
use vstd::arithmetic::power2::lemma2_to64;

verus! {

/// Deterministic RNG (xorshift64) so the selftest script is reproducible.
pub struct XorShift64(u64);

impl XorShift64 {
    /// Current generator state.
    pub closed spec fn state(&self) -> u64 {
        self.0
    }

    /// Generator starting from `seed`.
    pub fn seeded(seed: u64) -> (r: Self)
        ensures
            r.state() == seed,
    {
        XorShift64(seed)
    }

    /// Advances one step and returns the new state.
    pub fn next(&mut self) -> (v: u64)
        ensures
            v == xorshift64(old(self).state()),
            final(self).state() == v,
    {
        let x = xorshift64_step(self.0);
        self.0 = x;
        x
    }
}

/// A display that draws nothing (480x800).
pub struct NullDisplay;

impl NullDisplay {
    /// Width and height in pixels.
    pub fn size(&self) -> (wh: (u32, u32))
        ensures
            wh == (480u32, 800u32),
    {
        (480, 800)
    }
}

/// Seed of the in-process test hardware's RNG.
pub open spec fn test_hardware_seed() -> u64 {
    0x9E37_79B9_7F4A_7C15
}

/// In-process device hardware: null display and a deterministic RNG.
pub struct TestHardware {
    display: NullDisplay,
    rng: XorShift64,
}

impl TestHardware {
    /// State of the hardware RNG.
    pub closed spec fn rng_state(&self) -> u64 {
        self.rng.state()
    }

    pub fn new() -> (hw: Self)
        ensures
            hw.rng_state() == test_hardware_seed(),
    {
        Self { display: NullDisplay, rng: XorShift64(0x9E37_79B9_7F4A_7C15) }
    }

    /// The display; lending it leaves the RNG as it was.
    pub fn display(&mut self) -> (d: &mut NullDisplay)
        ensures
            final(self).rng_state() == old(self).rng_state(),
    {
        &mut self.display
    }

    /// Triggering a scan always succeeds: there is no scanner to refuse.
    pub fn trigger(&mut self) -> (r: Result<(), ScanError>)
        ensures
            r == Ok::<(), ScanError>(()),
            final(self).rng_state() == old(self).rng_state(),
    {
        Ok(())
    }

    /// No scan ever arrives.
    pub fn read_scan(&mut self) -> (r: Option<Vec<u8>>)
        ensures
            r is None,
            final(self).rng_state() == old(self).rng_state(),
    {
        None
    }

    /// No scanner is connected.
    pub fn is_connected(&self) -> (c: bool)
        ensures
            !c,
    {
        false
    }

    /// Aiming always succeeds.
    pub fn set_aim(&mut self, enabled: bool) -> (r: Result<(), ScanError>)
        ensures
            r == Ok::<(), ScanError>(()),
            final(self).rng_state() == old(self).rng_state(),
    {
        Ok(())
    }

    /// The simulated reboot always comes back.
    pub fn deep_sleep_reboot(&mut self) -> (ok: bool)
        ensures
            ok,
            final(self).rng_state() == old(self).rng_state(),
    {
        true
    }

    /// Re-initialising the scanner always succeeds.
    pub fn reinit_scanner(&mut self) -> (r: Result<(), ScanError>)
        ensures
            r == Ok::<(), ScanError>(()),
            final(self).rng_state() == old(self).rng_state(),
    {
        Ok(())
    }

    /// A factory heal always succeeds.
    pub fn factory_heal(&mut self) -> (r: Result<(), ScanError>)
        ensures
            r == Ok::<(), ScanError>(()),
            final(self).rng_state() == old(self).rng_state(),
    {
        Ok(())
    }

    /// The panel is never touched.
    pub fn touch_get(&mut self) -> (t: Option<TouchPoint>)
        ensures
            t is None,
            final(self).rng_state() == old(self).rng_state(),
    {
        None
    }

    /// Fills `dest` from the RNG: each step's 8 little-endian bytes in turn.
    pub fn rng_fill_bytes(&mut self, dest: &mut [u8])
        ensures
            final(dest)@ == xorshift64_bytes(old(self).rng_state(), old(dest)@.len()),
            final(self).rng_state() == xorshift64_iter(
                old(self).rng_state(),
                (old(dest)@.len() + 7) as nat / 8,
            ),
    {
        let next = fill_from_stream(self.rng.0, dest);
        self.rng.0 = next;
    }
}

/// Result of one swap script run.
pub struct SwapReport {
    pub amount: u64,
    pub proof_count: usize,
    pub export_token: Vec<u8>,
}

/// Why a `GetTokenInfo` payload could not be parsed.
#[derive(Debug, Clone, Copy, PartialEq, Eq, Structural)]
pub enum TokenInfoError {
    /// Payload truncated before the mint length byte.
    MintLength,
    /// Payload truncated before the unit length byte.
    UnitLength,
    /// Payload truncated inside the amount.
    Amount,
    /// Payload truncated inside the proof count.
    Count,
}

impl TokenInfoError {
    /// The diagnostic the harness prints.
    pub fn message(&self) -> (s: &'static str)
        ensures
            s@ == match *self {
                TokenInfoError::MintLength => "token info payload truncated (mint length)"@,
                TokenInfoError::UnitLength => "token info payload truncated (unit length)"@,
                TokenInfoError::Amount => "token info payload truncated (amount)"@,
                TokenInfoError::Count => "token info payload truncated (count)"@,
            },
    {
        match self {
            TokenInfoError::MintLength => "token info payload truncated (mint length)",
            TokenInfoError::UnitLength => "token info payload truncated (unit length)",
            TokenInfoError::Amount => "token info payload truncated (amount)",
            TokenInfoError::Count => "token info payload truncated (count)",
        }
    }
}

/// Big-endian value of 8 bytes starting at `o`.
pub open spec fn be_u64_at(s: Seq<u8>, o: int) -> int {
    s[o] * 0x0100_0000_0000_0000 + s[o + 1] * 0x0001_0000_0000_0000 + s[o + 2]
        * 0x0000_0100_0000_0000 + s[o + 3] * 0x0000_0001_0000_0000 + s[o + 4] * 0x0100_0000
        + s[o + 5] * 0x0001_0000 + s[o + 6] * 0x0100 + s[o + 7]
}

/// Big-endian value of 4 bytes starting at `o`.
pub open spec fn be_u32_at(s: Seq<u8>, o: int) -> int {
    s[o] * 0x0100_0000 + s[o + 1] * 0x0001_0000 + s[o + 2] * 0x0100 + s[o + 3]
}

/// Meaning of a `GetTokenInfo` payload
/// `[mint_len][mint][unit_len][unit][amount:8be][count:4be]`.
pub open spec fn spec_parse_token_info(info: Seq<u8>) -> Result<(u64, u32), TokenInfoError> {
    if info.len() < 1 {
        Err(TokenInfoError::MintLength)
    } else {
        let unit_at = 1 + info[0];
        if info.len() <= unit_at {
            Err(TokenInfoError::UnitLength)
        } else {
            let amount_at = unit_at + 1 + info[unit_at];
            if info.len() < amount_at + 8 {
                Err(TokenInfoError::Amount)
            } else if info.len() < amount_at + 12 {
                Err(TokenInfoError::Count)
            } else {
                Ok(
                    (
                        be_u64_at(info, amount_at) as u64,
                        be_u32_at(info, amount_at + 8) as u32,
                    ),
                )
            }
        }
    }
}

fn read_be_u64(s: &[u8], o: usize) -> (v: u64)
    requires
        o + 8 <= s@.len(),
    ensures
        v == be_u64_at(s@, o as int),
{
    (s[o] as u64) * 0x0100_0000_0000_0000 + (s[o + 1] as u64) * 0x0001_0000_0000_0000 + (s[o
        + 2] as u64) * 0x0000_0100_0000_0000 + (s[o + 3] as u64) * 0x0000_0001_0000_0000 + (s[o
        + 4] as u64) * 0x0100_0000 + (s[o + 5] as u64) * 0x0001_0000 + (s[o + 6] as u64) * 0x0100
        + (s[o + 7] as u64)
}

fn read_be_u32(s: &[u8], o: usize) -> (v: u32)
    requires
        o + 4 <= s@.len(),
    ensures
        v == be_u32_at(s@, o as int),
{
    (s[o] as u32) * 0x0100_0000 + (s[o + 1] as u32) * 0x0001_0000 + (s[o + 2] as u32) * 0x0100
        + (s[o + 3] as u32)
}

/// Parses a `GetTokenInfo` payload into `(amount, proof_count)`.
pub fn parse_token_info(info: &[u8]) -> (r: Result<(u64, u32), TokenInfoError>)
    ensures
        r == spec_parse_token_info(info@),
{
    if info.len() < 1 {
        return Err(TokenInfoError::MintLength);
    }
    let mut offset: usize = 1 + info[0] as usize;
    if info.len() <= offset {
        return Err(TokenInfoError::UnitLength);
    }
    offset = offset + 1 + info[offset] as usize;
    if info.len() < offset + 8 {
        return Err(TokenInfoError::Amount);
    }
    let amount = read_be_u64(info, offset);
    offset = offset + 8;
    if info.len() < offset + 4 {
        return Err(TokenInfoError::Count);
    }
    let count = read_be_u32(info, offset);
    Ok((amount, count))
}


// ---------------------------------------------------------------------------
// The swap script
// ---------------------------------------------------------------------------

/// Number of one bits of `n`: a Cashu amount is split into one proof per
/// power of two it contains.
pub open spec fn bit_count(n: nat) -> nat
    decreases n,
{
    if n == 0 {
        0
    } else {
        n % 2 + bit_count(n / 2)
    }
}

proof fn lemma_bit_count_bound(n: nat, k: nat)
    requires
        n < pow2(k),
    ensures
        bit_count(n) <= k,
    decreases k,
{
    if k == 0 {
        lemma2_to64();
    } else {
        lemma_pow2_unfold(k);
        assert(n / 2 < pow2((k - 1) as nat));
        lemma_bit_count_bound(n / 2, (k - 1) as nat);
    }
}

/// Proofs a token of `amount` sats carries: one per power of two.
pub fn expected_proof_count(amount: u64) -> (c: usize)
    ensures
        c == bit_count(amount as nat),
        c <= 64,
{
    proof {
        lemma2_to64();
        lemma_bit_count_bound(amount as nat, 64);
    }
    let mut n = amount;
    let mut count: usize = 0;
    while n > 0
        invariant
            count + bit_count(n as nat) == bit_count(amount as nat),
            bit_count(amount as nat) <= 64,
        decreases n,
    {
        count = count + (n % 2) as usize;
        n = n / 2;
    }
    count
}

/// Why a swap script run fails.
#[derive(Debug, Clone, Copy, PartialEq, Eq, Structural)]
pub enum SwapError {
    ImportFailed(Status),
    TokenInfoFailed(Status),
    TokenInfoMalformed(TokenInfoError),
    AmountMismatch { reported: u64, expected: u64 },
    ProofCountMismatch { reported: u32, expected: usize },
    BlindedFailed(Status),
    BlindedLength { got: usize, expected: usize },
    SignaturesRejected(Status),
    ExportFailed(Status),
    ExportAmount { got: u64, expected: u64 },
    ExportProofCount { got: usize, expected: usize },
    MissingDleq(usize),
}

/// What the driver of the script does next.
#[derive(Debug, Clone, Copy, PartialEq, Eq, Structural)]
pub enum SwapRequest {
    /// Send `ImportToken` with the token bytes.
    Import,
    /// Send `GetTokenInfo` with no payload.
    GetTokenInfo,
    /// Send `GetBlinded` with no payload.
    GetBlinded,
    /// Have the mint sign the blinded outputs just received and send them
    /// with `SendSignatures`.
    SignAndSend,
    /// Send `GetProofs` with no payload.
    GetProofs,
    /// Decode the exported token just received and hand its totals to
    /// [`SwapScript::finish`].
    DecodeExport,
}

/// Where the script waits.
#[derive(Debug, Clone, Copy, PartialEq, Eq, Structural)]
pub enum SwapStep {
    Import,
    TokenInfo,
    Blinded,
    Signatures,
    Proofs,
}

/// The swap script: one token import, blinding, signing and export,
/// checked at every reply. Both the in-process and the serial runner drive
/// exactly this sequence.
#[derive(Debug, Clone, Copy, PartialEq, Eq, Structural)]
pub struct SwapScript {
    pub amount: u64,
    pub expected_count: usize,
    pub step: SwapStep,
}

/// Bytes of one blinded output (a compressed point).
pub const BLINDED_OUTPUT_LEN: usize = 33;

/// The script's answer to the reply `(status, payload)` in `s`.
pub open spec fn spec_on_reply(s: SwapScript, status: Status, payload: Seq<u8>) -> Result<
    (SwapStep, SwapRequest),
    SwapError,
> {
    match s.step {
        SwapStep::Import => if status != Status::Success {
            Err(SwapError::ImportFailed(status))
        } else {
            Ok((SwapStep::TokenInfo, SwapRequest::GetTokenInfo))
        },
        SwapStep::TokenInfo => if status != Status::Success {
            Err(SwapError::TokenInfoFailed(status))
        } else {
            match spec_parse_token_info(payload) {
                Err(e) => Err(SwapError::TokenInfoMalformed(e)),
                Ok((amount, count)) => if amount != s.amount {
                    Err(SwapError::AmountMismatch { reported: amount, expected: s.amount })
                } else if count != s.expected_count {
                    Err(SwapError::ProofCountMismatch { reported: count, expected: s.expected_count })
                } else {
                    Ok((SwapStep::Blinded, SwapRequest::GetBlinded))
                },
            }
        },
        SwapStep::Blinded => if status != Status::Success {
            Err(SwapError::BlindedFailed(status))
        } else if payload.len() != s.expected_count * BLINDED_OUTPUT_LEN {
            Err(
                SwapError::BlindedLength {
                    got: payload.len() as usize,
                    expected: (s.expected_count * BLINDED_OUTPUT_LEN) as usize,
                },
            )
        } else {
            Ok((SwapStep::Signatures, SwapRequest::SignAndSend))
        },
        SwapStep::Signatures => if status != Status::Success {
            Err(SwapError::SignaturesRejected(status))
        } else {
            Ok((SwapStep::Proofs, SwapRequest::GetProofs))
        },
        SwapStep::Proofs => if status != Status::Success {
            Err(SwapError::ExportFailed(status))
        } else {
            Ok((SwapStep::Proofs, SwapRequest::DecodeExport))
        },
    }
}

/// The checks on the decoded export: its amount, its proof count and that
/// every proof carries a DLEQ proof.
pub open spec fn spec_finish(s: SwapScript, total: u64, count: usize, missing_dleq: usize) -> Result<
    (),
    SwapError,
> {
    if total != s.amount {
        Err(SwapError::ExportAmount { got: total, expected: s.amount })
    } else if count != s.expected_count {
        Err(SwapError::ExportProofCount { got: count, expected: s.expected_count })
    } else if missing_dleq != 0 {
        Err(SwapError::MissingDleq(missing_dleq))
    } else {
        Ok(())
    }
}

impl SwapScript {
    /// A script for a token of `amount` sats; the first request imports it.
    pub fn new(amount: u64) -> (r: (SwapScript, SwapRequest))
        ensures
            r.0 == (SwapScript {
                amount,
                expected_count: bit_count(amount as nat) as usize,
                step: SwapStep::Import,
            }),
            r.0.expected_count <= 64,
            r.1 == SwapRequest::Import,
    {
        let expected_count = expected_proof_count(amount);
        (SwapScript { amount, expected_count, step: SwapStep::Import }, SwapRequest::Import)
    }

    /// Checks the device's reply to the last request and moves on; an error
    /// ends the run.
    pub fn on_reply(&mut self, status: Status, payload: &[u8]) -> (r: Result<SwapRequest, SwapError>)
        requires
            old(self).expected_count <= 64,
        ensures
            final(self).amount == old(self).amount,
            final(self).expected_count == old(self).expected_count,
            match spec_on_reply(*old(self), status, payload@) {
                Ok((step, req)) => r == Ok::<SwapRequest, SwapError>(req) && final(self).step == step,
                Err(e) => r == Err::<SwapRequest, SwapError>(e) && final(self).step == old(self).step,
            },
    {
        match self.step {
            SwapStep::Import => {
                if status != Status::Success {
                    return Err(SwapError::ImportFailed(status));
                }
                self.step = SwapStep::TokenInfo;
                Ok(SwapRequest::GetTokenInfo)
            },
            SwapStep::TokenInfo => {
                if status != Status::Success {
                    return Err(SwapError::TokenInfoFailed(status));
                }
                match parse_token_info(payload) {
                    Err(e) => Err(SwapError::TokenInfoMalformed(e)),
                    Ok((amount, count)) => {
                        if amount != self.amount {
                            Err(SwapError::AmountMismatch { reported: amount, expected: self.amount })
                        } else if count as usize != self.expected_count {
                            Err(
                                SwapError::ProofCountMismatch {
                                    reported: count,
                                    expected: self.expected_count,
                                },
                            )
                        } else {
                            self.step = SwapStep::Blinded;
                            Ok(SwapRequest::GetBlinded)
                        }
                    },
                }
            },
            SwapStep::Blinded => {
                if status != Status::Success {
                    return Err(SwapError::BlindedFailed(status));
                }
                let expected = self.expected_count * BLINDED_OUTPUT_LEN;
                if payload.len() != expected {
                    return Err(SwapError::BlindedLength { got: payload.len(), expected });
                }
                self.step = SwapStep::Signatures;
                Ok(SwapRequest::SignAndSend)
            },
            SwapStep::Signatures => {
                if status != Status::Success {
                    return Err(SwapError::SignaturesRejected(status));
                }
                self.step = SwapStep::Proofs;
                Ok(SwapRequest::GetProofs)
            },
            SwapStep::Proofs => {
                if status != Status::Success {
                    return Err(SwapError::ExportFailed(status));
                }
                Ok(SwapRequest::DecodeExport)
            },
        }
    }

    /// Checks the decoded export: `total` sats in `count` proofs, of which
    /// `missing_dleq` carry no DLEQ proof.
    pub fn finish(&self, total: u64, count: usize, missing_dleq: usize) -> (r: Result<(), SwapError>)
        ensures
            r == spec_finish(*self, total, count, missing_dleq),
    {
        if total != self.amount {
            Err(SwapError::ExportAmount { got: total, expected: self.amount })
        } else if count != self.expected_count {
            Err(SwapError::ExportProofCount { got: count, expected: self.expected_count })
        } else if missing_dleq != 0 {
            Err(SwapError::MissingDleq(missing_dleq))
        } else {
            Ok(())
        }
    }
}

} // verus!
