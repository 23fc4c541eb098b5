//! Device replies to host commands: the token summary (`GetTokenInfo`),
//! the scanner status and the last scan, and the dispatch that turns a
//! command and what the device's hardware and crypto produced for it into
//! the reply and the next swap state.
use vstd::prelude::*;
use crate::bytes::append_bytes;
use crate::protocol::{padded, zero_payload, Command, Response, Status, MAX_PAYLOAD_SIZE};
use crate::qr::decoder::{decode_qr, spec_decode_qr, QrPayload, QrPayloadView};
use crate::state::SwapState;
use crate::swapscript::{be_u32_at, be_u64_at, spec_parse_token_info};

verus! {

/// Big-endian bytes of a 64-bit value.
pub open spec fn be_bytes_u64(v: u64) -> Seq<u8> {
    seq![
        (v >> 56u64) as u8,
        (v >> 48u64) as u8,
        (v >> 40u64) as u8,
        (v >> 32u64) as u8,
        (v >> 24u64) as u8,
        (v >> 16u64) as u8,
        (v >> 8u64) as u8,
        v as u8,
    ]
}

/// Big-endian bytes of a 32-bit value.
pub open spec fn be_bytes_u32(v: u32) -> Seq<u8> {
    seq![(v >> 24u32) as u8, (v >> 16u32) as u8, (v >> 8u32) as u8, v as u8]
}

/// The `GetTokenInfo` payload `[mint_len][mint][unit_len][unit][amount:8be]
/// [count:4be]`. Each length byte holds its length modulo 256 and the
/// count is taken modulo 2^32.
pub open spec fn token_info_bytes(mint: Seq<u8>, unit: Seq<u8>, amount: u64, count: usize) -> Seq<
    u8,
> {
    seq![mint.len() as u8] + mint + seq![unit.len() as u8] + unit + be_bytes_u64(amount)
        + be_bytes_u32(count as u32)
}

/// Size of the `GetTokenInfo` payload.
pub open spec fn token_info_len(mint: Seq<u8>, unit: Seq<u8>) -> int {
    1 + mint.len() + 1 + unit.len() + 8 + 4int
}

proof fn lemma_be_u64(v: u64)
    ensures
        ((v >> 56u64) as u8) * 0x0100_0000_0000_0000int + ((v >> 48u64) as u8)
            * 0x0001_0000_0000_0000int + ((v >> 40u64) as u8) * 0x0000_0100_0000_0000int + ((v
            >> 32u64) as u8) * 0x0000_0001_0000_0000int + ((v >> 24u64) as u8) * 0x0100_0000int
            + ((v >> 16u64) as u8) * 0x0001_0000int + ((v >> 8u64) as u8) * 0x0100int + (v as u8)
            == v,
{
    assert(((v >> 56u64) as u8) * 0x0100_0000_0000_0000int + ((v >> 48u64) as u8)
        * 0x0001_0000_0000_0000int + ((v >> 40u64) as u8) * 0x0000_0100_0000_0000int + ((v
        >> 32u64) as u8) * 0x0000_0001_0000_0000int + ((v >> 24u64) as u8) * 0x0100_0000int + ((v
        >> 16u64) as u8) * 0x0001_0000int + ((v >> 8u64) as u8) * 0x0100int + (v as u8) == v)
        by (bit_vector);
}

proof fn lemma_be_u32(v: u32)
    ensures
        ((v >> 24u32) as u8) * 0x0100_0000int + ((v >> 16u32) as u8) * 0x0001_0000int + ((v
            >> 8u32) as u8) * 0x0100int + (v as u8) == v,
{
    assert(((v >> 24u32) as u8) * 0x0100_0000int + ((v >> 16u32) as u8) * 0x0001_0000int + ((v
        >> 8u32) as u8) * 0x0100int + (v as u8) == v) by (bit_vector);
}

/// What the host reads back from a token summary is what the device put
/// in: amount and proof count survive whenever the mint URL and the unit
/// each fit a length byte.
pub proof fn lemma_token_info_roundtrip(mint: Seq<u8>, unit: Seq<u8>, amount: u64, count: usize)
    requires
        mint.len() <= 255,
        unit.len() <= 255,
    ensures
        spec_parse_token_info(token_info_bytes(mint, unit, amount, count)) == Ok::<
            (u64, u32),
            crate::swapscript::TokenInfoError,
        >((amount, count as u32)),
{
    let b = token_info_bytes(mint, unit, amount, count);
    let ua: int = 1int + mint.len();
    let aa: int = ua + 1 + unit.len();
    assert(b[0] == mint.len() as u8);
    assert(b[ua] == unit.len() as u8);
    assert(b.len() == aa + 12);
    assert(b.subrange(aa, aa + 8) =~= be_bytes_u64(amount));
    assert(b.subrange(aa + 8, aa + 12) =~= be_bytes_u32(count as u32));
    let a8 = be_bytes_u64(amount);
    let c4 = be_bytes_u32(count as u32);
    assert forall|k: int| 0 <= k < 8 implies b[aa + k] == a8[k] by {
        assert(b.subrange(aa, aa + 8)[k] == b[aa + k]);
    }
    assert forall|k: int| 0 <= k < 4 implies b[aa + 8 + k] == c4[k] by {
        assert(b.subrange(aa + 8, aa + 12)[k] == b[aa + 8 + k]);
    }
    lemma_be_u64(amount);
    lemma_be_u32(count as u32);
    assert(be_u64_at(b, aa) == amount);
    assert(be_u32_at(b, aa + 8) == count as u32);
}

/// The device's answer to `GetTokenInfo` for a token minted at `mint` in
/// `unit`, worth `amount` in `proof_count` proofs: the summary payload, or
/// `BufferOverflow` when it would not fit a frame.
pub fn token_info_response(mint: &[u8], unit: &[u8], amount: u64, proof_count: usize) -> (r:
    Response)
    ensures
        token_info_len(mint@, unit@) > MAX_PAYLOAD_SIZE ==> r.status == Status::BufferOverflow
            && r.length == 0 && r.payload@ == zero_payload(),
        token_info_len(mint@, unit@) <= MAX_PAYLOAD_SIZE ==> r.status == Status::Success
            && r.length == token_info_len(mint@, unit@) && r.payload@ == padded(
            token_info_bytes(mint@, unit@, amount, proof_count),
        ),
{
    if mint.len() > MAX_PAYLOAD_SIZE || unit.len() > MAX_PAYLOAD_SIZE || 1 + mint.len() + 1
        + unit.len() + 8 + 4 > MAX_PAYLOAD_SIZE {
        return Response::new(Status::BufferOverflow);
    }
    let mut payload: Vec<u8> = Vec::new();
    payload.push(mint.len() as u8);
    append_bytes(&mut payload, mint);
    payload.push(unit.len() as u8);
    append_bytes(&mut payload, unit);
    let a = [
        (amount >> 56) as u8,
        (amount >> 48) as u8,
        (amount >> 40) as u8,
        (amount >> 32) as u8,
        (amount >> 24) as u8,
        (amount >> 16) as u8,
        (amount >> 8) as u8,
        amount as u8,
    ];
    append_bytes(&mut payload, &a);
    let count = proof_count as u32;
    let c = [(count >> 24) as u8, (count >> 16) as u8, (count >> 8) as u8, count as u8];
    append_bytes(&mut payload, &c);
    assert(a@ =~= be_bytes_u64(amount));
    assert(c@ =~= be_bytes_u32(proof_count as u32));
    assert(payload@ =~= token_info_bytes(mint@, unit@, amount, proof_count));
    match Response::with_payload(Status::Success, payload.as_slice()) {
        Some(r) => r,
        None => Response::new(Status::BufferOverflow),
    }
}

/// The device's answer to `ScannerStatus`: `[connected, data_ready, model]`
/// with readiness and model not reported (zero).
pub fn scanner_status_response(connected: bool) -> (r: Response)
    ensures
        r.status == Status::Success,
        r.length == 3,
        r.payload@ == padded(seq![if connected { 1u8 } else { 0u8 }, 0u8, 0u8]),
{
    let bytes: [u8; 3] = [
        if connected {
            1
        } else {
            0
        },
        0x00,
        0x00,
    ];
    assert(bytes@ =~= seq![if connected { 1u8 } else { 0u8 }, 0u8, 0u8]);
    match Response::with_payload(Status::Success, &bytes) {
        Some(r) => r,
        None => Response::new(Status::Error),
    }
}

/// The `ScannerData` payload: the payload-kind byte followed by as much of
/// the scan as fits a frame.
pub open spec fn scanner_data_bytes(kind: u8, data: Seq<u8>) -> Seq<u8> {
    let keep = if data.len() < MAX_PAYLOAD_SIZE - 1 {
        data.len() as int
    } else {
        MAX_PAYLOAD_SIZE - 1
    };
    seq![kind] + data.take(keep)
}

/// The device's answer to `ScannerData` for the last scan, whose payload
/// kind byte is `kind` (0 text, 1 Cashu V4, 2 Cashu V3, 3 UR fragment,
/// 4 binary): the kind, then the scan cut to the frame limit.
pub fn scanner_data_response(kind: u8, data: &[u8]) -> (r: Response)
    ensures
        r.status == Status::Success,
        r.length == scanner_data_bytes(kind, data@).len(),
        r.payload@ == padded(scanner_data_bytes(kind, data@)),
{
    let keep = if data.len() < MAX_PAYLOAD_SIZE - 1 {
        data.len()
    } else {
        MAX_PAYLOAD_SIZE - 1
    };
    let mut buf: Vec<u8> = Vec::new();
    buf.push(kind);
    append_bytes(&mut buf, &data[0..keep]);
    assert(buf@ =~= scanner_data_bytes(kind, data@));
    match Response::with_payload(Status::Success, buf.as_slice()) {
        Some(r) => r,
        None => Response::new(Status::BufferOverflow),
    }
}

/// Payload-kind byte of a decoded scan: 0 text, 1 Cashu V4, 2 Cashu V3,
/// 3 UR fragment, 4 binary.
pub open spec fn spec_scan_kind(p: QrPayloadView) -> u8 {
    match p {
        QrPayloadView::PlainText(_) => 0x00,
        QrPayloadView::CashuV4(_) => 0x01,
        QrPayloadView::CashuV3(_) => 0x02,
        QrPayloadView::UrFragment { .. } => 0x03,
        QrPayloadView::Binary(_) => 0x04,
    }
}

/// Payload-kind byte of a decoded scan.
pub fn scan_kind(p: &QrPayload) -> (k: u8)
    ensures
        k == spec_scan_kind(p@),
{
    match p {
        QrPayload::PlainText(_) => 0x00,
        QrPayload::CashuV4 { .. } => 0x01,
        QrPayload::CashuV3 { .. } => 0x02,
        QrPayload::UrFragment { .. } => 0x03,
        QrPayload::Binary(_) => 0x04,
    }
}

/// Whether `r` carries `status` and the payload `body`.
pub open spec fn reply_is(r: Response, status: Status, body: Seq<u8>) -> bool {
    &&& r.status == status
    &&& r.length == body.len()
    &&& r.payload@ == padded(body)
}

/// A reply with a status and no payload.
fn bare_reply(status: Status) -> (r: Response)
    ensures
        reply_is(r, status, Seq::empty()),
{
    let r = Response::new(status);
    assert(padded(Seq::<u8>::empty()) =~= zero_payload());
    r
}

/// The answer to `ScannerData`: `NoScanData` without a scan, else the
/// scan's kind byte followed by the scan, cut to the frame limit.
pub fn scanner_data_reply(last: Option<&[u8]>) -> (r: Response)
    ensures
        last is None ==> reply_is(r, Status::NoScanData, Seq::empty()),
        last matches Some(d) ==> reply_is(
            r,
            Status::Success,
            scanner_data_bytes(spec_scan_kind(spec_decode_qr(d@)), d@),
        ),
{
    match last {
        None => bare_reply(Status::NoScanData),
        Some(d) => {
            let payload = decode_qr(d);
            let kind = scan_kind(&payload);
            scanner_data_response(kind, d)
        },
    }
}

/// Size of one blinded point or blind signature on the wire.
pub const POINT_SIZE: usize = 33;

/// What the device's hardware and crypto produced for a host command, as
/// plain values; each variant belongs to one command.
pub enum CommandOutcome {
    /// `ImportToken`: whether the payload decoded as a Cashu token.
    Import { decoded: bool },
    /// `GetTokenInfo`: mint, unit, amount and proof count of the imported
    /// token, if one was imported.
    TokenInfo { token: Option<(Vec<u8>, Vec<u8>, u64, usize)> },
    /// `GetBlinded`: the blinded points, 33 bytes each, made for the
    /// imported token; none without an imported token.
    Blinded { points: Option<Vec<u8>> },
    /// `SendSignatures`: how many blinded messages await signatures (none
    /// when none were made), the payload length, and how many proofs the
    /// signatures unblinded to (none when the mint key could not be had).
    Signatures { pending: Option<usize>, payload_len: usize, unblinded: Option<usize> },
    /// `GetProofs`: the encoded swapped token; none when there are no proofs,
    /// no token, or the encoding failed.
    Proofs { encoded: Option<Vec<u8>> },
    /// `ScannerStatus`: whether a scanner is connected.
    ScannerStatus { connected: bool },
    /// `ScannerTrigger`: whether the trigger reached the scanner.
    Trigger { ok: bool },
    /// `ScannerData`: the last scan, taken from the device.
    Data { last: Option<Vec<u8>> },
    /// `ScannerHeal` (or `ScannerFactoryHeal` when `factory`): whether the
    /// scanner came back after its re-init.
    Heal { factory: bool, ok: bool },
}

/// A command outcome with its byte vectors as sequences.
pub enum CommandOutcomeView {
    Import { decoded: bool },
    TokenInfo { token: Option<(Seq<u8>, Seq<u8>, u64, usize)> },
    Blinded { points: Option<Seq<u8>> },
    Signatures { pending: Option<usize>, payload_len: usize, unblinded: Option<usize> },
    Proofs { encoded: Option<Seq<u8>> },
    ScannerStatus { connected: bool },
    Trigger { ok: bool },
    Data { last: Option<Seq<u8>> },
    Heal { factory: bool, ok: bool },
}

/// An optional byte vector taken by its view.
pub open spec fn opt_bytes(v: Option<Vec<u8>>) -> Option<Seq<u8>> {
    match v {
        Some(b) => Some(b@),
        None => None,
    }
}

impl View for CommandOutcome {
    type V = CommandOutcomeView;

    open spec fn view(&self) -> CommandOutcomeView {
        match self {
            CommandOutcome::Import { decoded } => CommandOutcomeView::Import { decoded: *decoded },
            CommandOutcome::TokenInfo { token } => CommandOutcomeView::TokenInfo {
                token: match token {
                    Some(t) => Some((t.0@, t.1@, t.2, t.3)),
                    None => None,
                },
            },
            CommandOutcome::Blinded { points } => CommandOutcomeView::Blinded {
                points: opt_bytes(*points),
            },
            CommandOutcome::Signatures { pending, payload_len, unblinded } =>
                CommandOutcomeView::Signatures {
                pending: *pending,
                payload_len: *payload_len,
                unblinded: *unblinded,
            },
            CommandOutcome::Proofs { encoded } => CommandOutcomeView::Proofs {
                encoded: opt_bytes(*encoded),
            },
            CommandOutcome::ScannerStatus { connected } => CommandOutcomeView::ScannerStatus {
                connected: *connected,
            },
            CommandOutcome::Trigger { ok } => CommandOutcomeView::Trigger { ok: *ok },
            CommandOutcome::Data { last } => CommandOutcomeView::Data { last: opt_bytes(*last) },
            CommandOutcome::Heal { factory, ok } => CommandOutcomeView::Heal {
                factory: *factory,
                ok: *ok,
            },
        }
    }
}

/// The command an outcome belongs to.
pub open spec fn outcome_command(o: CommandOutcomeView) -> Command {
    match o {
        CommandOutcomeView::Import { .. } => Command::ImportToken,
        CommandOutcomeView::TokenInfo { .. } => Command::GetTokenInfo,
        CommandOutcomeView::Blinded { .. } => Command::GetBlinded,
        CommandOutcomeView::Signatures { .. } => Command::SendSignatures,
        CommandOutcomeView::Proofs { .. } => Command::GetProofs,
        CommandOutcomeView::ScannerStatus { .. } => Command::ScannerStatus,
        CommandOutcomeView::Trigger { .. } => Command::ScannerTrigger,
        CommandOutcomeView::Data { .. } => Command::ScannerData,
        CommandOutcomeView::Heal { factory, .. } => if factory {
            Command::ScannerFactoryHeal
        } else {
            Command::ScannerHeal
        },
    }
}

/// Whether signatures can be unblinded: blinded messages are waiting and
/// the payload is whole 33-byte signatures, one per message.
pub open spec fn spec_signatures_acceptable(pending: Option<usize>, payload_len: usize) -> bool {
    pending matches Some(n) && payload_len % POINT_SIZE == 0 && payload_len / POINT_SIZE == n
}

/// Whether signatures can be unblinded (checked before any crypto runs).
pub fn signatures_acceptable(pending: Option<usize>, payload_len: usize) -> (ok: bool)
    ensures
        ok == spec_signatures_acceptable(pending, payload_len),
{
    match pending {
        None => false,
        Some(n) => payload_len % POINT_SIZE == 0 && payload_len / POINT_SIZE == n,
    }
}

/// The swap state after a host command and the reply's status and payload.
/// A token import moves to `TokenImported`, blinded outputs to
/// `BlindedGenerated`, unblinded proofs to `ProofsReady`; every failure
/// leaves the state as it was.
pub open spec fn spec_handle_command(swap: SwapState, o: CommandOutcomeView) -> (
    SwapState,
    Status,
    Seq<u8>,
) {
    match o {
        CommandOutcomeView::Import { decoded } => if decoded {
            (SwapState::TokenImported, Status::Success, Seq::empty())
        } else {
            (swap, Status::InvalidPayload, Seq::empty())
        },
        CommandOutcomeView::TokenInfo { token } => match token {
            None => (swap, Status::Error, Seq::empty()),
            Some((m, u, a, c)) => if token_info_len(m, u) > MAX_PAYLOAD_SIZE {
                (swap, Status::BufferOverflow, Seq::empty())
            } else {
                (swap, Status::Success, token_info_bytes(m, u, a, c))
            },
        },
        CommandOutcomeView::Blinded { points } => match points {
            None => (swap, Status::Error, Seq::empty()),
            Some(p) => if p.len() == 0 {
                (swap, Status::CryptoError, Seq::empty())
            } else if p.len() > MAX_PAYLOAD_SIZE {
                (swap, Status::BufferOverflow, Seq::empty())
            } else {
                (SwapState::BlindedGenerated, Status::Success, p)
            },
        },
        CommandOutcomeView::Signatures { pending, payload_len, unblinded } => if pending is None {
            (swap, Status::Error, Seq::empty())
        } else if !spec_signatures_acceptable(pending, payload_len) {
            (swap, Status::InvalidPayload, Seq::empty())
        } else if unblinded is None || unblinded == Some(0usize) {
            (swap, Status::CryptoError, Seq::empty())
        } else {
            (SwapState::ProofsReady, Status::Success, Seq::empty())
        },
        CommandOutcomeView::Proofs { encoded } => match encoded {
            None => (swap, Status::Error, Seq::empty()),
            Some(e) => if e.len() > MAX_PAYLOAD_SIZE {
                (swap, Status::BufferOverflow, Seq::empty())
            } else {
                (swap, Status::Success, e)
            },
        },
        CommandOutcomeView::ScannerStatus { connected } => (
            swap,
            Status::Success,
            seq![if connected { 1u8 } else { 0u8 }, 0u8, 0u8],
        ),
        CommandOutcomeView::Trigger { ok } => (swap, if ok {
            Status::Success
        } else {
            Status::ScannerNotConnected
        }, Seq::empty()),
        CommandOutcomeView::Data { last } => match last {
            None => (swap, Status::NoScanData, Seq::empty()),
            Some(d) => (
                swap,
                Status::Success,
                scanner_data_bytes(spec_scan_kind(spec_decode_qr(d)), d),
            ),
        },
        CommandOutcomeView::Heal { ok, .. } => (swap, if ok {
            Status::Success
        } else {
            Status::ScannerNotConnected
        }, Seq::empty()),
    }
}

/// Handles one host command, given what the hardware and crypto produced
/// for it: the next swap state and the reply.
pub fn handle_command(swap: SwapState, outcome: &CommandOutcome) -> (r: (SwapState, Response))
    ensures
        r.0 == spec_handle_command(swap, outcome@).0,
        reply_is(
            r.1,
            spec_handle_command(swap, outcome@).1,
            spec_handle_command(swap, outcome@).2,
        ),
{
    match outcome {
        CommandOutcome::Import { decoded } => if *decoded {
            (SwapState::TokenImported, bare_reply(Status::Success))
        } else {
            (swap, bare_reply(Status::InvalidPayload))
        },
        CommandOutcome::TokenInfo { token } => match token {
            None => (swap, bare_reply(Status::Error)),
            Some(t) => {
                let r = token_info_response(t.0.as_slice(), t.1.as_slice(), t.2, t.3);
                proof {
                    assert(padded(Seq::<u8>::empty()) =~= zero_payload());
                }
                (swap, r)
            },
        },
        CommandOutcome::Blinded { points } => match points {
            None => (swap, bare_reply(Status::Error)),
            Some(p) => {
                if p.len() == 0 {
                    (swap, bare_reply(Status::CryptoError))
                } else {
                    match Response::with_payload(Status::Success, p.as_slice()) {
                        Some(r) => (SwapState::BlindedGenerated, r),
                        None => (swap, bare_reply(Status::BufferOverflow)),
                    }
                }
            },
        },
        CommandOutcome::Signatures { pending, payload_len, unblinded } => {
            if pending.is_none() {
                (swap, bare_reply(Status::Error))
            } else if !signatures_acceptable(*pending, *payload_len) {
                (swap, bare_reply(Status::InvalidPayload))
            } else {
                match unblinded {
                    Some(n) => if *n == 0 {
                        (swap, bare_reply(Status::CryptoError))
                    } else {
                        (SwapState::ProofsReady, bare_reply(Status::Success))
                    },
                    None => (swap, bare_reply(Status::CryptoError)),
                }
            }
        },
        CommandOutcome::Proofs { encoded } => match encoded {
            None => (swap, bare_reply(Status::Error)),
            Some(e) => match Response::with_payload(Status::Success, e.as_slice()) {
                Some(r) => (swap, r),
                None => (swap, bare_reply(Status::BufferOverflow)),
            },
        },
        CommandOutcome::ScannerStatus { connected } => (swap, scanner_status_response(*connected)),
        CommandOutcome::Trigger { ok } => if *ok {
            (swap, bare_reply(Status::Success))
        } else {
            (swap, bare_reply(Status::ScannerNotConnected))
        },
        CommandOutcome::Data { last } => match last {
            None => (swap, scanner_data_reply(None)),
            Some(d) => (swap, scanner_data_reply(Some(d.as_slice()))),
        },
        CommandOutcome::Heal { ok, .. } => if *ok {
            (swap, bare_reply(Status::Success))
        } else {
            (swap, bare_reply(Status::ScannerNotConnected))
        },
    }
}

/// A command whose reply is not a success leaves the swap state as it was.
pub proof fn lemma_failed_command_keeps_state(swap: SwapState, o: CommandOutcomeView)
    ensures
        spec_handle_command(swap, o).1 != Status::Success ==> spec_handle_command(swap, o).0
            == swap,
{
}

} // verus!
