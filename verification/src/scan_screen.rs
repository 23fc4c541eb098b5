//! Layout of the scan-result screen: what it shows for a decoded scan.
//!
//! Short UTF-8 text (or binary that is UTF-8) of at most 200 bytes is mirrored
//! as a QR code instead. Otherwise the screen shows a chip naming the payload
//! kind (`UR i/n` for a UR fragment), a token card for a Cashu V4 token (its
//! amount, unit, mint, proof count and keyset, or a decode-error card), the
//! byte count, and the data as 44-byte lines up to the rows left, with an
//! ellipsis when cut. The drawing itself is done by the caller.
use vstd::prelude::*;
use vstd::utf8::valid_utf8;
use vstd::string::StringExecFns;
use crate::bytes::append_bytes;
use crate::mint_json::{decimal, push_decimal};
use crate::qr::decoder::{str_from_utf8, QrPayload, QrPayloadView};

verus! {

/// Longest text mirrored as a QR code.
pub const MIRROR_MAX_LEN: usize = 200;

/// Bytes of data per screen line.
pub const LINE_BYTES: usize = 44;

/// Longest unit shown under the amount.
pub const UNIT_MAX_LEN: usize = 8;

/// Longest value shown in a token-card row.
pub const VALUE_MAX_LEN: usize = 26;

/// Height of the display in pixels.
pub const SCREEN_HEIGHT: u32 = 800;

/// Height of one data line in pixels.
pub const LINE_HEIGHT: u32 = 24;

/// Bottom margin below the last data line.
pub const BOTTOM_MARGIN: u32 = 40;

/// Summary of a decoded Cashu V4 token, as the wallet reports it.
pub struct TokenSummary {
    pub amount: u64,
    pub unit: Vec<u8>,
    pub mint: Vec<u8>,
    pub proof_count: usize,
    /// Keyset id of the first token entry, if the token has one.
    pub keyset: Option<Vec<u8>>,
}

pub struct TokenSummaryView {
    pub amount: u64,
    pub unit: Seq<u8>,
    pub mint: Seq<u8>,
    pub proof_count: usize,
    pub keyset: Option<Seq<u8>>,
}

/// An optional byte vector taken by its view.
pub open spec fn opt_seq(v: Option<Vec<u8>>) -> Option<Seq<u8>> {
    match v {
        Some(b) => Some(b@),
        None => None,
    }
}

impl View for TokenSummary {
    type V = TokenSummaryView;

    open spec fn view(&self) -> TokenSummaryView {
        TokenSummaryView {
            amount: self.amount,
            unit: self.unit@,
            mint: self.mint@,
            proof_count: self.proof_count,
            keyset: opt_seq(self.keyset),
        }
    }
}

/// An optional token summary taken by its view.
pub open spec fn token_view(t: Option<TokenSummary>) -> Option<TokenSummaryView> {
    match t {
        Some(s) => Some(s@),
        None => None,
    }
}

/// The card under the chip.
pub enum TokenCard {
    /// Not a Cashu V4 token: no card.
    Absent,
    /// A Cashu V4 token that did not decode.
    DecodeError,
    /// A decoded token: amount, unit (drawn upper-cased), mint, proof count
    /// and keyset.
    Summary { amount: String, unit: Vec<u8>, mint: Vec<u8>, proofs: String, keyset: Option<Vec<u8>> },
}

pub enum TokenCardView {
    Absent,
    DecodeError,
    Summary {
        amount: Seq<char>,
        unit: Seq<u8>,
        mint: Seq<u8>,
        proofs: Seq<char>,
        keyset: Option<Seq<u8>>,
    },
}

impl View for TokenCard {
    type V = TokenCardView;

    open spec fn view(&self) -> TokenCardView {
        match self {
            TokenCard::Absent => TokenCardView::Absent,
            TokenCard::DecodeError => TokenCardView::DecodeError,
            TokenCard::Summary { amount, unit, mint, proofs, keyset } => TokenCardView::Summary {
                amount: amount@,
                unit: unit@,
                mint: mint@,
                proofs: proofs@,
                keyset: opt_seq(*keyset),
            },
        }
    }
}

/// What the scan-result screen shows.
pub struct ScanScreen {
    /// The text to show as a QR mirror instead of the result card, if any.
    pub mirror: Option<Vec<u8>>,
    pub chip: String,
    pub card: TokenCard,
    /// `N BYTES`.
    pub byte_label: String,
    pub lines: Vec<Vec<u8>>,
    /// Whether the data did not fit and an ellipsis follows the lines.
    pub cut: bool,
}

pub struct ScanScreenView {
    pub mirror: Option<Seq<u8>>,
    pub chip: Seq<char>,
    pub card: TokenCardView,
    pub byte_label: Seq<char>,
    pub lines: Seq<Seq<u8>>,
    pub cut: bool,
}

/// Byte vectors taken by their views.
pub open spec fn lines_view(v: Seq<Vec<u8>>) -> Seq<Seq<u8>> {
    v.map_values(|l: Vec<u8>| l@)
}

impl View for ScanScreen {
    type V = ScanScreenView;

    open spec fn view(&self) -> ScanScreenView {
        ScanScreenView {
            mirror: opt_seq(self.mirror),
            chip: self.chip@,
            card: self.card@,
            byte_label: self.byte_label@,
            lines: lines_view(self.lines@),
            cut: self.cut,
        }
    }
}

/// The bytes a payload carries.
pub open spec fn payload_raw(p: QrPayloadView) -> Seq<u8> {
    match p {
        QrPayloadView::CashuV4(e) => e,
        QrPayloadView::CashuV3(j) => j,
        QrPayloadView::UrFragment { data, .. } => data,
        QrPayloadView::PlainText(t) => t,
        QrPayloadView::Binary(b) => b,
    }
}

/// Whether byte `b` continues a UTF-8 sequence.
pub open spec fn is_continuation(b: u8) -> bool {
    0x80 <= b && b < 0xC0
}

/// The largest index at most `i` that does not split a UTF-8 sequence of
/// `s` (the length of `s` when `i` is past it).
pub open spec fn floor_boundary(s: Seq<u8>, i: int) -> int
    decreases i,
{
    if i >= s.len() {
        s.len() as int
    } else if i <= 0 {
        0
    } else if !is_continuation(s[i]) {
        i
    } else {
        floor_boundary(s, i - 1)
    }
}

/// `s` cut to at most `max` bytes without splitting a UTF-8 sequence.
pub open spec fn truncated(s: Seq<u8>, max: nat) -> Seq<u8> {
    if s.len() <= max {
        s
    } else {
        s.take(floor_boundary(s, max as int))
    }
}

/// Length of the UTF-8 sequence a lead byte starts.
pub open spec fn lead_len(b: u8) -> int {
    if b < 0x80 {
        1
    } else if b < 0xE0 {
        2
    } else if b < 0xF0 {
        3
    } else {
        4
    }
}

/// End of the screen line that starts at `start`: the last sequence
/// boundary within 44 bytes, or one whole character when none is.
pub open spec fn line_end(s: Seq<u8>, start: int) -> int {
    let e = floor_boundary(s, start + LINE_BYTES);
    if e <= start {
        if start + lead_len(s[start]) < s.len() {
            start + lead_len(s[start])
        } else {
            s.len() as int
        }
    } else {
        e
    }
}

/// At most `n` screen lines of `s` from `start`, and the offset after them.
pub open spec fn data_lines(s: Seq<u8>, start: int, n: nat) -> (Seq<Seq<u8>>, int)
    decreases n,
{
    if start >= s.len() || n == 0 {
        (Seq::empty(), start)
    } else {
        let e = line_end(s, start);
        let r = data_lines(s, e, (n - 1) as nat);
        (seq![s.subrange(start, e)] + r.0, r.1)
    }
}

/// Pixel row where the data lines start, below the chip, the card and the
/// `DATA` heading.
pub open spec fn data_top(card: TokenCardView) -> int {
    match card {
        TokenCardView::Absent => 146,
        TokenCardView::DecodeError => 226,
        TokenCardView::Summary { .. } => 434,
    }
}

/// Data lines that fit between `data_top` and the bottom margin.
pub open spec fn max_lines(card: TokenCardView) -> nat {
    ((SCREEN_HEIGHT - BOTTOM_MARGIN - data_top(card)) / (LINE_HEIGHT as int)) as nat
}

/// `<binary data>`, shown for data that is not UTF-8.
pub open spec fn binary_placeholder() -> Seq<u8> {
    seq![0x3Cu8, 0x62, 0x69, 0x6E, 0x61, 0x72, 0x79, 0x20, 0x64, 0x61, 0x74, 0x61, 0x3E]
}

/// The chip label of a payload.
pub open spec fn chip_label(p: QrPayloadView) -> Seq<char> {
    match p {
        QrPayloadView::UrFragment { index, total, .. } => "UR "@ + decimal(index as nat) + "/"@
            + decimal(total as nat),
        QrPayloadView::CashuV4(_) => "CASHU V4"@,
        QrPayloadView::CashuV3(_) => "CASHU V3"@,
        QrPayloadView::PlainText(_) => "TEXT"@,
        QrPayloadView::Binary(_) => "BINARY"@,
    }
}

/// The token card of a payload, given the wallet's decode of a V4 token.
pub open spec fn token_card(p: QrPayloadView, token: Option<TokenSummaryView>) -> TokenCardView {
    match p {
        QrPayloadView::CashuV4(_) => match token {
            Some(t) => TokenCardView::Summary {
                amount: decimal(t.amount as nat),
                unit: truncated(t.unit, UNIT_MAX_LEN as nat),
                mint: truncated(t.mint, VALUE_MAX_LEN as nat),
                proofs: decimal(t.proof_count as nat),
                keyset: match t.keyset {
                    Some(k) => Some(truncated(k, VALUE_MAX_LEN as nat)),
                    None => None,
                },
            },
            None => TokenCardView::DecodeError,
        },
        _ => TokenCardView::Absent,
    }
}

/// Whether a payload is mirrored as a QR code: text or binary of at most
/// 200 bytes that is UTF-8.
pub open spec fn mirrored(p: QrPayloadView) -> bool {
    (p is PlainText || p is Binary) && payload_raw(p).len() <= MIRROR_MAX_LEN && valid_utf8(
        payload_raw(p),
    )
}

/// The scan-result screen of payload `p`; `token` is the wallet's decode of
/// a Cashu V4 token (none when it failed), ignored for other payloads.
pub open spec fn spec_decoded_scan_screen(p: QrPayloadView, token: Option<TokenSummaryView>) -> ScanScreenView {
    let raw = payload_raw(p);
    if mirrored(p) {
        ScanScreenView {
            mirror: Some(raw),
            chip: Seq::empty(),
            card: TokenCardView::Absent,
            byte_label: Seq::empty(),
            lines: Seq::empty(),
            cut: false,
        }
    } else {
        let card = token_card(p, token);
        let data = if valid_utf8(raw) {
            raw
        } else {
            binary_placeholder()
        };
        let shown = data_lines(data, 0, max_lines(card));
        ScanScreenView {
            mirror: None,
            chip: chip_label(p),
            card,
            byte_label: decimal(raw.len()) + " BYTES"@,
            lines: shown.0,
            cut: shown.1 < data.len(),
        }
    }
}

proof fn lemma_floor_boundary_bounds(s: Seq<u8>, i: int)
    ensures
        0 <= floor_boundary(s, i) <= s.len(),
        0 <= i < s.len() ==> floor_boundary(s, i) <= i,
    decreases i,
{
    if i < s.len() && i > 0 && is_continuation(s[i]) {
        lemma_floor_boundary_bounds(s, i - 1);
    }
}

/// [`floor_boundary`] of `s` at `i`.
fn floor_char_boundary(s: &[u8], i: usize) -> (j: usize)
    ensures
        j == floor_boundary(s@, i as int),
{
    if i >= s.len() {
        return s.len();
    }
    let mut j = i;
    while j > 0 && s[j] >= 0x80 && s[j] < 0xC0
        invariant
            j <= i < s@.len(),
            floor_boundary(s@, j as int) == floor_boundary(s@, i as int),
        decreases j,
    {
        j = j - 1;
    }
    j
}

/// `s` cut to at most `max` bytes without splitting a UTF-8 sequence.
fn truncate_bytes(s: &[u8], max: usize) -> (t: Vec<u8>)
    ensures
        t@ == truncated(s@, max as nat),
{
    if s.len() <= max {
        return crate::bytes::to_vec(s);
    }
    let end = floor_char_boundary(s, max);
    proof {
        lemma_floor_boundary_bounds(s@, max as int);
    }
    let t = crate::bytes::to_vec(&s[0..end]);
    assert(t@ =~= s@.take(end as int));
    t
}

/// [`line_end`] of `s` at `start`.
fn next_line_end(s: &[u8], start: usize) -> (e: usize)
    requires
        start < s@.len(),
    ensures
        e == line_end(s@, start as int),
        start < e <= s@.len(),
{
    let target = if s.len() - start <= LINE_BYTES {
        s.len()
    } else {
        start + LINE_BYTES
    };
    let e = floor_char_boundary(s, target);
    proof {
        lemma_floor_boundary_bounds(s@, target as int);
    }
    assert(floor_boundary(s@, target as int) == floor_boundary(s@, start + LINE_BYTES));
    if e <= start {
        let b = s[start];
        let lead: usize = if b < 0x80 {
            1
        } else if b < 0xE0 {
            2
        } else if b < 0xF0 {
            3
        } else {
            4
        };
        if s.len() - start > lead {
            start + lead
        } else {
            s.len()
        }
    } else {
        e
    }
}

/// The screen lines of `s`: at most `n`, and whether some data was left.
fn split_lines(s: &[u8], n: usize) -> (r: (Vec<Vec<u8>>, bool))
    ensures
        lines_view(r.0@) == data_lines(s@, 0, n as nat).0,
        r.1 == (data_lines(s@, 0, n as nat).1 < s@.len()),
{
    let mut lines: Vec<Vec<u8>> = Vec::new();
    let mut offset: usize = 0;
    let mut count: usize = 0;
    assert(lines_view(lines@) + data_lines(s@, 0, n as nat).0 =~= data_lines(s@, 0, n as nat).0);
    while offset < s.len() && count < n
        invariant
            offset <= s@.len(),
            count <= n,
            data_lines(s@, 0, n as nat).0 == lines_view(lines@) + data_lines(
                s@,
                offset as int,
                (n - count) as nat,
            ).0,
            data_lines(s@, 0, n as nat).1 == data_lines(s@, offset as int, (n - count) as nat).1,
        decreases n - count,
    {
        let e = next_line_end(s, offset);
        let line = crate::bytes::to_vec(&s[offset..e]);
        let ghost before = lines@;
        let ghost rest = data_lines(s@, e as int, (n - count - 1) as nat);
        assert(data_lines(s@, offset as int, (n - count) as nat) == (
        seq![s@.subrange(offset as int, e as int)] + rest.0, rest.1));
        lines.push(line);
        assert(lines_view(lines@) =~= lines_view(before).push(s@.subrange(offset as int, e as int)));
        assert(lines_view(lines@) + rest.0 =~= lines_view(before) + (seq![
            s@.subrange(offset as int, e as int),
        ] + rest.0));
        offset = e;
        count = count + 1;
    }
    assert(data_lines(s@, offset as int, (n - count) as nat).0 =~= Seq::<Seq<u8>>::empty());
    assert(lines_view(lines@) + Seq::<Seq<u8>>::empty() =~= lines_view(lines@));
    let cut = offset < s.len();
    (lines, cut)
}

/// Appends the decimal digits of `n`.
fn decimal_string(n: u64) -> (s: String)
    ensures
        s@ == decimal(n as nat),
{
    let mut s = String::from_str("");
    proof {
        reveal_strlit("");
    }
    push_decimal(&mut s, n);
    assert(s@ =~= decimal(n as nat));
    s
}

/// The chip label of a payload.
fn chip_text(payload: &QrPayload) -> (s: String)
    ensures
        s@ == chip_label(payload@),
{
    match payload {
        QrPayload::UrFragment { index, total, .. } => {
            let mut s = String::from_str("UR ");
            push_decimal(&mut s, *index as u64);
            s.append("/");
            push_decimal(&mut s, *total as u64);
            s
        },
        QrPayload::CashuV4 { .. } => String::from_str("CASHU V4"),
        QrPayload::CashuV3 { .. } => String::from_str("CASHU V3"),
        QrPayload::PlainText(_) => String::from_str("TEXT"),
        QrPayload::Binary(_) => String::from_str("BINARY"),
    }
}

/// Lays out the scan-result screen of `payload`; `token` is the wallet's
/// decode of a Cashu V4 token (none when it failed), ignored for other
/// payloads.
pub fn decoded_scan_screen(payload: &QrPayload, token: Option<TokenSummary>) -> (s: ScanScreen)
    ensures
        s@ == spec_decoded_scan_screen(payload@, token_view(token)),
{
    let raw = payload.raw_data();
    let utf8 = str_from_utf8(raw).is_some();
    let text_like = match payload {
        QrPayload::PlainText(_) | QrPayload::Binary(_) => true,
        _ => false,
    };
    if text_like && raw.len() <= MIRROR_MAX_LEN && utf8 {
        proof {
            reveal_strlit("");
        }
        let s = ScanScreen {
            mirror: Some(crate::bytes::to_vec(raw)),
            chip: String::from_str(""),
            card: TokenCard::Absent,
            byte_label: String::from_str(""),
            lines: Vec::new(),
            cut: false,
        };
        assert(lines_view(s.lines@) =~= Seq::<Seq<u8>>::empty());
        assert(mirrored(payload@));
        assert(s.chip@ =~= Seq::<char>::empty());
        assert(s.byte_label@ =~= Seq::<char>::empty());
        assert(opt_seq(s.mirror) == Some(payload_raw(payload@)));
        return s;
    }
    let card = match payload {
        QrPayload::CashuV4 { .. } => match token {
            Some(t) => TokenCard::Summary {
                amount: decimal_string(t.amount),
                unit: truncate_bytes(t.unit.as_slice(), UNIT_MAX_LEN),
                mint: truncate_bytes(t.mint.as_slice(), VALUE_MAX_LEN),
                proofs: decimal_string(t.proof_count as u64),
                keyset: match t.keyset {
                    Some(k) => Some(truncate_bytes(k.as_slice(), VALUE_MAX_LEN)),
                    None => None,
                },
            },
            None => TokenCard::DecodeError,
        },
        _ => TokenCard::Absent,
    };
    let top: u32 = match card {
        TokenCard::Absent => 146,
        TokenCard::DecodeError => 226,
        TokenCard::Summary { .. } => 434,
    };
    let rows = ((SCREEN_HEIGHT - BOTTOM_MARGIN - top) / LINE_HEIGHT) as usize;
    let placeholder: [u8; 13] = [
        0x3C,
        0x62,
        0x69,
        0x6E,
        0x61,
        0x72,
        0x79,
        0x20,
        0x64,
        0x61,
        0x74,
        0x61,
        0x3E,
    ];
    assert(placeholder@ =~= binary_placeholder());
    let (lines, cut) = if utf8 {
        split_lines(raw, rows)
    } else {
        split_lines(&placeholder, rows)
    };
    let mut byte_label = decimal_string(raw.len() as u64);
    byte_label.append(" BYTES");
    ScanScreen { mirror: None, chip: chip_text(payload), card, byte_label, lines, cut }
}

} // verus!
