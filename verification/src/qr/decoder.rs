//! Scanned QR payloads: classification into Cashu tokens, UR fragments,
//! text and binary data, and the reassembly of multi-part (animated) UR
//! codes.
use vstd::prelude::*;
use vstd::utf8::valid_utf8;
use vstd::utf8::decode_utf8;
use vstd::utf8::encode_utf8;
use vstd::utf8::encode_utf8_decode_utf8;
use vstd::string::StringSliceAdditionalSpecFns;
use vstd::string::StrSliceExecFns;
use crate::bytes::{append_bytes, to_vec};
use crate::util::str_eq;
use crate::mint_json::{decimal, push_all, push_decimal};

verus! {

/// Whether `data` begins with `prefix`.
pub open spec fn has_prefix(data: Seq<u8>, prefix: Seq<u8>) -> bool {
    data.len() >= prefix.len() && data.take(prefix.len() as int) == prefix
}

/// Cashu V4 token prefix `cashuB`.
pub open spec fn cashu_v4_prefix() -> Seq<u8> {
    seq![0x63u8, 0x61, 0x73, 0x68, 0x75, 0x42]
}

/// Cashu V3 token prefix `cashuA`.
pub open spec fn cashu_v3_prefix() -> Seq<u8> {
    seq![0x63u8, 0x61, 0x73, 0x68, 0x75, 0x41]
}

/// UR protocol prefix `ur:`.
pub open spec fn ur_prefix() -> Seq<u8> {
    seq![0x75u8, 0x72, 0x3A]
}

fn starts_with(data: &[u8], prefix: &[u8]) -> (b: bool)
    ensures
        b == has_prefix(data@, prefix@),
{
    if data.len() < prefix.len() {
        return false;
    }
    let mut i: usize = 0;
    while i < prefix.len()
        invariant
            i <= prefix@.len() <= data@.len(),
            data@.take(i as int) == prefix@.take(i as int),
        decreases prefix@.len() - i,
    {
        if data[i] != prefix[i] {
            assert(data@.take(prefix@.len() as int)[i as int] != prefix@[i as int]);
            return false;
        }
        assert(data@.take(i + 1) =~= data@.take(i as int).push(data@[i as int]));
        assert(prefix@.take(i + 1) =~= prefix@.take(i as int).push(prefix@[i as int]));
        i = i + 1;
    }
    assert(prefix@.take(i as int) =~= prefix@);
    true
}

/// The bytes as a string slice if they are well-formed UTF-8
/// (`core::str::from_utf8`).
///
/// Trusted: `from_utf8` succeeds exactly for valid UTF-8 (no overlong forms,
/// no surrogates, nothing above U+10FFFF), which is what
/// `vstd::utf8::valid_utf8` defines, and the slice it returns views the same
/// bytes.
#[verifier::external_body]
pub(crate) fn str_from_utf8(data: &[u8]) -> (r: Option<&str>)
    ensures
        r is Some <==> valid_utf8(data@),
        r matches Some(s) ==> s.spec_bytes() == data@,
{
    core::str::from_utf8(data).ok()
}

/// Whether scanned data looks like a payload the wallet can handle: a Cashu
/// token, a UR fragment, or any UTF-8 text.
pub fn is_qr_payload(data: &[u8]) -> (b: bool)
    ensures
        b == (has_prefix(data@, cashu_v4_prefix()) || has_prefix(data@, cashu_v3_prefix())
            || has_prefix(data@, ur_prefix()) || valid_utf8(data@)),
{
    let v4: [u8; 6] = [0x63, 0x61, 0x73, 0x68, 0x75, 0x42];
    let v3: [u8; 6] = [0x63, 0x61, 0x73, 0x68, 0x75, 0x41];
    let ur: [u8; 3] = [0x75, 0x72, 0x3A];
    assert(v4@ =~= cashu_v4_prefix());
    assert(v3@ =~= cashu_v3_prefix());
    assert(ur@ =~= ur_prefix());
    starts_with(data, &v4) || starts_with(data, &v3) || starts_with(data, &ur) || str_from_utf8(
        data,
    ).is_some()
}

// ---------------------------------------------------------------------------
// Payloads
// ---------------------------------------------------------------------------

/// A scanned QR payload, by kind.
#[derive(Debug, Clone)]
pub enum QrPayload {
    /// Cashu V4 token (`cashuB...`).
    CashuV4 { encoded: Vec<u8> },
    /// Cashu V3 token (`cashuA...`, JSON).
    CashuV3 { json: Vec<u8> },
    /// One fragment of an animated UR code.
    UrFragment { index: u32, total: u32, hash: String, data: Vec<u8> },
    PlainText(Vec<u8>),
    Binary(Vec<u8>),
}

/// A payload with its contents as sequences.
pub enum QrPayloadView {
    CashuV4(Seq<u8>),
    CashuV3(Seq<u8>),
    UrFragment { index: u32, total: u32, hash: Seq<char>, data: Seq<u8> },
    PlainText(Seq<u8>),
    Binary(Seq<u8>),
}

impl View for QrPayload {
    type V = QrPayloadView;

    open spec fn view(&self) -> QrPayloadView {
        match self {
            QrPayload::CashuV4 { encoded } => QrPayloadView::CashuV4(encoded@),
            QrPayload::CashuV3 { json } => QrPayloadView::CashuV3(json@),
            QrPayload::UrFragment { index, total, hash, data } => QrPayloadView::UrFragment {
                index: *index,
                total: *total,
                hash: hash@,
                data: data@,
            },
            QrPayload::PlainText(d) => QrPayloadView::PlainText(d@),
            QrPayload::Binary(d) => QrPayloadView::Binary(d@),
        }
    }
}

impl QrPayload {
    /// Whether the payload is a Cashu token (V3 or V4).
    pub fn is_cashu(&self) -> (b: bool)
        ensures
            b == (self@ is CashuV4 || self@ is CashuV3),
    {
        match self {
            QrPayload::CashuV4 { .. } | QrPayload::CashuV3 { .. } => true,
            _ => false,
        }
    }

    /// Whether the payload is a UR fragment.
    pub fn is_ur(&self) -> (b: bool)
        ensures
            b == self@ is UrFragment,
    {
        match self {
            QrPayload::UrFragment { .. } => true,
            _ => false,
        }
    }

    /// The payload's bytes (for a UR fragment, its data part).
    pub fn raw_data(&self) -> (d: &[u8])
        ensures
            d@ == match self@ {
                QrPayloadView::CashuV4(e) => e,
                QrPayloadView::CashuV3(j) => j,
                QrPayloadView::UrFragment { data, .. } => data,
                QrPayloadView::PlainText(t) => t,
                QrPayloadView::Binary(b) => b,
            },
    {
        match self {
            QrPayload::CashuV4 { encoded } => encoded.as_slice(),
            QrPayload::CashuV3 { json } => json.as_slice(),
            QrPayload::UrFragment { data, .. } => data.as_slice(),
            QrPayload::PlainText(data) => data.as_slice(),
            QrPayload::Binary(data) => data.as_slice(),
        }
    }

    /// Human-readable kind of the payload.
    pub fn payload_type_name(&self) -> (s: &'static str)
        ensures
            s@ == match self@ {
                QrPayloadView::CashuV4(_) => "Cashu V4 Token"@,
                QrPayloadView::CashuV3(_) => "Cashu V3 Token"@,
                QrPayloadView::UrFragment { .. } => "UR Fragment"@,
                QrPayloadView::PlainText(_) => "Plain Text"@,
                QrPayloadView::Binary(_) => "Binary Data"@,
            },
    {
        match self {
            QrPayload::CashuV4 { .. } => "Cashu V4 Token",
            QrPayload::CashuV3 { .. } => "Cashu V3 Token",
            QrPayload::UrFragment { .. } => "UR Fragment",
            QrPayload::PlainText(_) => "Plain Text",
            QrPayload::Binary(_) => "Binary Data",
        }
    }
}

/// One-line description of a payload: its kind and size, or a fragment's
/// position in its sequence.
pub open spec fn spec_describe(p: QrPayloadView) -> Seq<char> {
    match p {
        QrPayloadView::CashuV4(e) => seq!['C', 'a', 's', 'h', 'u', 'V', '4', '('] + decimal(e.len())
            + seq![' ', 'b', 'y', 't', 'e', 's', ')'],
        QrPayloadView::CashuV3(j) => seq!['C', 'a', 's', 'h', 'u', 'V', '3', '('] + decimal(j.len())
            + seq![' ', 'b', 'y', 't', 'e', 's', ')'],
        QrPayloadView::UrFragment { index, total, .. } => seq![
            'U',
            'R',
            ' ',
            'F',
            'r',
            'a',
            'g',
            'm',
            'e',
            'n',
            't',
            ' ',
        ] + decimal(index as nat) + seq!['/'] + decimal(total as nat),
        QrPayloadView::PlainText(t) => seq!['P', 'l', 'a', 'i', 'n', 'T', 'e', 'x', 't', '(']
            + decimal(t.len()) + seq![' ', 'b', 'y', 't', 'e', 's', ')'],
        QrPayloadView::Binary(b) => seq!['B', 'i', 'n', 'a', 'r', 'y', '('] + decimal(b.len())
            + seq![' ', 'b', 'y', 't', 'e', 's', ')'],
    }
}

impl QrPayload {
    /// The payload's one-line description.
    pub fn to_string(&self) -> (s: String)
        ensures
            s@ == spec_describe(self@),
    {
        let mut out = String::new();
        let bytes_suffix: [char; 7] = [' ', 'b', 'y', 't', 'e', 's', ')'];
        match self {
            QrPayload::CashuV4 { encoded } => {
                push_all(&mut out, &['C', 'a', 's', 'h', 'u', 'V', '4', '(']);
                push_decimal(&mut out, encoded.len() as u64);
                push_all(&mut out, &bytes_suffix);
            },
            QrPayload::CashuV3 { json } => {
                push_all(&mut out, &['C', 'a', 's', 'h', 'u', 'V', '3', '(']);
                push_decimal(&mut out, json.len() as u64);
                push_all(&mut out, &bytes_suffix);
            },
            QrPayload::UrFragment { index, total, .. } => {
                push_all(&mut out, &['U', 'R', ' ', 'F', 'r', 'a', 'g', 'm', 'e', 'n', 't', ' ']);
                push_decimal(&mut out, *index as u64);
                push_all(&mut out, &['/']);
                push_decimal(&mut out, *total as u64);
            },
            QrPayload::PlainText(data) => {
                push_all(&mut out, &['P', 'l', 'a', 'i', 'n', 'T', 'e', 'x', 't', '(']);
                push_decimal(&mut out, data.len() as u64);
                push_all(&mut out, &bytes_suffix);
            },
            QrPayload::Binary(data) => {
                push_all(&mut out, &['B', 'i', 'n', 'a', 'r', 'y', '(']);
                push_decimal(&mut out, data.len() as u64);
                push_all(&mut out, &bytes_suffix);
            },
        }
        assert(out@ =~= spec_describe(self@));
        out
    }
}

// ---------------------------------------------------------------------------
// UR fragments: `ur:<type>/<index>-<total>/<hash>/<data>`
// ---------------------------------------------------------------------------

/// Index of the first `x` in `c` at or after `from`; `c.len()` if none.
pub open spec fn find_char(c: Seq<char>, x: char, from: int) -> int
    decreases c.len() - from,
{
    if from >= c.len() {
        c.len() as int
    } else if c[from] == x {
        from
    } else {
        find_char(c, x, from + 1)
    }
}

/// ASCII lower case of a character; other characters are kept.
pub open spec fn ascii_lower(ch: char) -> char {
    if 'A' <= ch <= 'Z' {
        ((ch as u32) + 32) as char
    } else {
        ch
    }
}

/// Whether a UR type is `cashu`, in any case. (Lower-casing maps no
/// character outside ASCII onto one of `c`, `a`, `s`, `h`, `u`.)
pub open spec fn is_cashu_type(p: Seq<char>) -> bool {
    &&& p.len() == 5
    &&& ascii_lower(p[0]) == 'c'
    &&& ascii_lower(p[1]) == 'a'
    &&& ascii_lower(p[2]) == 's'
    &&& ascii_lower(p[3]) == 'h'
    &&& ascii_lower(p[4]) == 'u'
}

/// Whether `ch` is an ASCII decimal digit.
pub open spec fn is_digit(ch: char) -> bool {
    '0' <= ch <= '9'
}

/// Value of a string of decimal digits.
pub open spec fn digits_value(d: Seq<char>) -> nat
    decreases d.len(),
{
    if d.len() == 0 {
        0
    } else {
        digits_value(d.drop_last()) * 10 + ((d.last() as u32) - 48) as nat
    }
}

/// Whether every character of `d` is a decimal digit.
pub open spec fn all_digits(d: Seq<char>) -> bool {
    forall|i: int| 0 <= i < d.len() ==> is_digit(#[trigger] d[i])
}

/// A `u32` as `str::parse::<u32>` reads it: an optional `+`, then one or
/// more decimal digits whose value fits in 32 bits.
pub open spec fn parse_u32(s: Seq<char>) -> Option<u32> {
    let d = if s.len() > 0 && s[0] == '+' {
        s.subrange(1, s.len() as int)
    } else {
        s
    };
    if d.len() > 0 && all_digits(d) && digits_value(d) <= u32::MAX {
        Some(digits_value(d) as u32)
    } else {
        None
    }
}

/// The parts of a UR fragment text.
pub struct UrFields {
    pub index: u32,
    pub total: u32,
    pub hash: Seq<char>,
    pub data: Seq<char>,
}

/// Fields of UR text `ur:<type>/<index>-<total>/<hash>/<data>`: the type
/// runs from after `ur:` to the first `/` and must be `cashu` in any case;
/// then `<index>-<total>` (exactly one `-` between two `u32`s) up to the
/// second `/`; the hash up to the third `/` or the end; the data is
/// everything after the third `/`, slashes included, or nothing.
pub open spec fn spec_ur_fields(c: Seq<char>) -> Option<UrFields> {
    let n = c.len() as int;
    let p1 = find_char(c, '/', 3);
    let p2 = find_char(c, '/', p1 + 1);
    if p2 >= n {
        None
    } else {
        let p3 = find_char(c, '/', p2 + 1);
        let ty = c.subrange(3, p1);
        let it = c.subrange(p1 + 1, p2);
        let q = find_char(it, '-', 0);
        if !is_cashu_type(ty) || q >= it.len() || find_char(it, '-', q + 1) < it.len() {
            None
        } else {
            match (parse_u32(it.subrange(0, q)), parse_u32(it.subrange(q + 1, it.len() as int))) {
                (Some(index), Some(total)) => Some(
                    UrFields {
                        index,
                        total,
                        hash: c.subrange(p2 + 1, p3),
                        data: if p3 < n {
                            c.subrange(p3 + 1, n)
                        } else {
                            Seq::empty()
                        },
                    },
                ),
                _ => None,
            }
        }
    }
}

/// How UR text is read: binary if not UTF-8, plain text unless its fields
/// parse, else a fragment carrying the UTF-8 bytes of its data.
pub open spec fn spec_parse_ur_fragment(data: Seq<u8>) -> QrPayloadView {
    if !valid_utf8(data) {
        QrPayloadView::Binary(data)
    } else {
        match spec_ur_fields(decode_utf8(data)) {
            None => QrPayloadView::PlainText(data),
            Some(f) => QrPayloadView::UrFragment {
                index: f.index,
                total: f.total,
                hash: f.hash,
                data: encode_utf8(f.data),
            },
        }
    }
}

/// Classification of scanned data: token prefixes first, then UR, then
/// UTF-8 text, else binary.
pub open spec fn spec_decode_qr(data: Seq<u8>) -> QrPayloadView {
    if has_prefix(data, cashu_v4_prefix()) {
        QrPayloadView::CashuV4(data)
    } else if has_prefix(data, cashu_v3_prefix()) {
        QrPayloadView::CashuV3(data)
    } else if has_prefix(data, ur_prefix()) {
        spec_parse_ur_fragment(data)
    } else if valid_utf8(data) {
        QrPayloadView::PlainText(data)
    } else {
        QrPayloadView::Binary(data)
    }
}

fn find_char_in(s: &str, n: usize, x: char, from: usize) -> (r: usize)
    requires
        n == s@.len(),
        from <= n,
    ensures
        r == find_char(s@, x, from as int),
        from <= r <= n,
{
    let mut i = from;
    while i < n
        invariant
            n == s@.len(),
            from <= i <= n,
            find_char(s@, x, from as int) == find_char(s@, x, i as int),
        decreases n - i,
    {
        if s.get_char(i) == x {
            return i;
        }
        i = i + 1;
    }
    i
}

proof fn lemma_find_char_bounds(c: Seq<char>, x: char, from: int)
    requires
        0 <= from,
    ensures
        from <= find_char(c, x, from) <= c.len() || (from > c.len() && find_char(c, x, from)
            == c.len()),
        find_char(c, x, from) < c.len() ==> c[find_char(c, x, from)] == x,
    decreases c.len() - from,
{
    if from < c.len() && c[from] != x {
        lemma_find_char_bounds(c, x, from + 1);
    }
}

proof fn lemma_digits_value_grows(d: Seq<char>, k: int)
    requires
        0 <= k <= d.len(),
        all_digits(d),
    ensures
        digits_value(d.take(k)) <= digits_value(d),
    decreases d.len() - k,
{
    if k < d.len() {
        lemma_digits_value_grows(d, k + 1);
        assert(d.take(k + 1).drop_last() =~= d.take(k));
    } else {
        assert(d.take(k) =~= d);
    }
}

fn parse_u32_str(s: &str) -> (r: Option<u32>)
    ensures
        r == parse_u32(s@),
{
    let n = s.unicode_len();
    let start: usize = if n > 0 && s.get_char(0) == '+' {
        1
    } else {
        0
    };
    let ghost d = if s@.len() > 0 && s@[0] == '+' {
        s@.subrange(1, s@.len() as int)
    } else {
        s@
    };
    assert(d =~= s@.subrange(start as int, n as int));
    if start == n {
        return None;
    }
    let mut value: u64 = 0;
    let mut i = start;
    while i < n
        invariant
            n == s@.len(),
            start <= i <= n,
            d =~= s@.subrange(start as int, n as int),
            d == (if s@.len() > 0 && s@[0] == '+' {
                s@.subrange(1, s@.len() as int)
            } else {
                s@
            }),
            forall|j: int| 0 <= j < i - start ==> is_digit(#[trigger] d[j]),
            value == digits_value(d.take(i - start)),
            value <= u32::MAX,
        decreases n - i,
    {
        let ch = s.get_char(i);
        assert(d[i - start] == ch);
        if ch < '0' || ch > '9' {
            assert(!is_digit(d[i - start]));
            assert(!all_digits(d));
            return None;
        }
        let digit = (ch as u32 - 48) as u64;
        assert(d.take(i + 1 - start).drop_last() =~= d.take(i - start));
        assert(d.take(i + 1 - start).last() == ch);
        value = value * 10 + digit;
        assert(value == digits_value(d.take(i + 1 - start)));
        if value > 0xFFFF_FFFF {
            proof {
                assert forall|j: int| 0 <= j < i + 1 - start implies is_digit(
                    #[trigger] d.take(i + 1 - start)[j],
                ) by {}
                if all_digits(d) {
                    lemma_digits_value_grows(d, i + 1 - start);
                }
            }
            return None;
        }
        i = i + 1;
    }
    assert(d.take(n - start) =~= d);
    Some(value as u32)
}

/// Whether a UR type reads `cashu` in any case.
fn cashu_type(t: &str) -> (b: bool)
    ensures
        b == is_cashu_type(t@),
{
    if t.unicode_len() != 5 {
        return false;
    }
    let want: [char; 5] = ['c', 'a', 's', 'h', 'u'];
    let mut i: usize = 0;
    while i < 5
        invariant
            t@.len() == 5,
            want@ == seq!['c', 'a', 's', 'h', 'u'],
            i <= 5,
            forall|j: int| 0 <= j < i ==> ascii_lower(#[trigger] t@[j]) == want@[j],
        decreases 5 - i,
    {
        let ch = t.get_char(i);
        let lower = if 'A' <= ch && ch <= 'Z' {
            ((ch as u32) + 32) as u8 as char
        } else {
            ch
        };
        assert(lower == ascii_lower(ch)) by {
            if 'A' <= ch && ch <= 'Z' {
                assert(((ch as u32) + 32) as u8 as char == ((ch as u32) + 32) as char);
            }
        }
        if lower != want[i] {
            return false;
        }
        i = i + 1;
    }
    true
}

/// Reads UR text `ur:<type>/<index>-<total>/<hash>/<data>`: binary if not
/// UTF-8, plain text unless every field parses.
fn parse_ur_fragment(data: &[u8]) -> (p: QrPayload)
    ensures
        p@ == spec_parse_ur_fragment(data@),
{
    let s = match str_from_utf8(data) {
        Some(s) => s,
        None => return QrPayload::Binary(to_vec(data)),
    };
    let ghost c = s@;
    proof {
        encode_utf8_decode_utf8(c);
    }
    assert(decode_utf8(data@) == c);
    let n = s.unicode_len();
    let p1 = if n >= 3 {
        find_char_in(s, n, '/', 3)
    } else {
        n
    };
    let p2 = if p1 < n {
        find_char_in(s, n, '/', p1 + 1)
    } else {
        n
    };
    proof {
        if n >= 3 {
            lemma_find_char_bounds(c, '/', 3);
        }
        lemma_find_char_bounds(c, '/', p1 + 1);
        if p1 >= n {
            assert(find_char(c, '/', p1 + 1) == n);
        }
    }
    if p2 >= n {
        return QrPayload::PlainText(to_vec(data));
    }
    let p3 = find_char_in(s, n, '/', p2 + 1);
    let ty = s.substring_char(3, p1);
    let it = s.substring_char(p1 + 1, p2);
    let m = it.unicode_len();
    let q = find_char_in(it, m, '-', 0);
    if !cashu_type(ty) || q >= m {
        return QrPayload::PlainText(to_vec(data));
    }
    let q2 = find_char_in(it, m, '-', q + 1);
    if q2 < m {
        return QrPayload::PlainText(to_vec(data));
    }
    let index = match parse_u32_str(it.substring_char(0, q)) {
        Some(v) => v,
        None => return QrPayload::PlainText(to_vec(data)),
    };
    let total = match parse_u32_str(it.substring_char(q + 1, m)) {
        Some(v) => v,
        None => return QrPayload::PlainText(to_vec(data)),
    };
    let hash = String::from_str(s.substring_char(p2 + 1, p3));
    let rest: &str = if p3 < n {
        s.substring_char(p3 + 1, n)
    } else {
        s.substring_char(n, n)
    };
    let body = to_vec(rest.as_bytes());
    assert(rest@ == spec_ur_fields(c)->0.data);
    QrPayload::UrFragment { index, total, hash, data: body }
}

/// Classifies scanned data: Cashu V4 or V3 token by prefix, UR fragment,
/// UTF-8 text, else binary.
pub fn decode_qr(data: &[u8]) -> (p: QrPayload)
    ensures
        p@ == spec_decode_qr(data@),
{
    let v4: [u8; 6] = [0x63, 0x61, 0x73, 0x68, 0x75, 0x42];
    let v3: [u8; 6] = [0x63, 0x61, 0x73, 0x68, 0x75, 0x41];
    let ur: [u8; 3] = [0x75, 0x72, 0x3A];
    assert(v4@ =~= cashu_v4_prefix());
    assert(v3@ =~= cashu_v3_prefix());
    assert(ur@ =~= ur_prefix());
    if starts_with(data, &v4) {
        return QrPayload::CashuV4 { encoded: to_vec(data) };
    }
    if starts_with(data, &v3) {
        return QrPayload::CashuV3 { json: to_vec(data) };
    }
    if starts_with(data, &ur) {
        return parse_ur_fragment(data);
    }
    if str_from_utf8(data).is_some() {
        return QrPayload::PlainText(to_vec(data));
    }
    QrPayload::Binary(to_vec(data))
}

// ---------------------------------------------------------------------------
// UR reassembly
// ---------------------------------------------------------------------------

/// Number of fragments present.
pub open spec fn count_present(f: Seq<Option<Seq<u8>>>) -> nat
    decreases f.len(),
{
    if f.len() == 0 {
        0
    } else {
        count_present(f.drop_last()) + if f.last() is Some {
            1nat
        } else {
            0nat
        }
    }
}

/// All fragments joined in index order, or `None` while one is missing.
pub open spec fn join_fragments(f: Seq<Option<Seq<u8>>>) -> Option<Seq<u8>>
    decreases f.len(),
{
    if f.len() == 0 {
        Some(Seq::empty())
    } else {
        match (join_fragments(f.drop_last()), f.last()) {
            (Some(a), Some(b)) => Some(a + b),
            _ => None,
        }
    }
}

/// State of a UR reassembly.
pub struct UrDecoderView {
    pub total: Option<u32>,
    pub hash: Option<Seq<char>>,
    pub fragments: Seq<Option<Seq<u8>>>,
    pub received: nat,
}

/// Accumulates the fragments of one multi-part UR code.
pub struct UrDecoder {
    total: Option<u32>,
    hash: Option<String>,
    fragments: Vec<Option<Vec<u8>>>,
    received: u32,
}

/// A fragment slot by its view.
pub open spec fn slot_view(f: Option<Vec<u8>>) -> Option<Seq<u8>> {
    match f {
        Some(v) => Some(v@),
        None => None,
    }
}

/// Fragment slots by their views.
pub open spec fn slots_view(v: Seq<Option<Vec<u8>>>) -> Seq<Option<Seq<u8>>> {
    v.map_values(|f: Option<Vec<u8>>| slot_view(f))
}

/// `n` empty fragment slots.
pub open spec fn empty_slots(n: nat) -> Seq<Option<Seq<u8>>> {
    Seq::new(n, |i: int| None)
}

impl View for UrDecoder {
    type V = UrDecoderView;

    closed spec fn view(&self) -> UrDecoderView {
        UrDecoderView {
            total: self.total,
            hash: match self.hash {
                Some(h) => Some(h@),
                None => None,
            },
            fragments: slots_view(self.fragments@),
            received: self.received as nat,
        }
    }
}

/// What a decoder state always satisfies: idle with nothing stored, or
/// bound to one sequence with one slot per fragment and a count of the
/// slots filled.
pub open spec fn ur_inv(v: UrDecoderView) -> bool {
    match v.total {
        None => v.hash is None && v.fragments.len() == 0 && v.received == 0,
        Some(t) => v.hash is Some && v.fragments.len() == t && v.received == count_present(
            v.fragments,
        ),
    }
}

/// The empty decoder.
pub open spec fn ur_idle() -> UrDecoderView {
    UrDecoderView { total: None, hash: None, fragments: Seq::empty(), received: 0 }
}

/// One fragment fed to the decoder. The first fragment binds the decoder
/// to its hash and total; a fragment of another sequence is ignored; a new
/// index is stored (indices count from 1); once every fragment is in, the
/// joined data comes back.
pub open spec fn spec_feed(v: UrDecoderView, p: QrPayloadView) -> (UrDecoderView, Option<Seq<u8>>) {
    match p {
        QrPayloadView::UrFragment { index, total, hash, data } => {
            let v1 = if v.total is None {
                UrDecoderView {
                    total: Some(total),
                    hash: Some(hash),
                    fragments: empty_slots(total as nat),
                    received: 0,
                }
            } else {
                v
            };
            if v1.hash != Some(hash) {
                (v1, None)
            } else {
                let idx = index - 1;
                let v2 = if idx < v1.fragments.len() && v1.fragments[idx] is None {
                    UrDecoderView {
                        fragments: v1.fragments.update(idx, Some(data)),
                        received: v1.received + 1,
                        ..v1
                    }
                } else {
                    v1
                };
                if v2.received == v2.total->0 {
                    (v2, join_fragments(v2.fragments))
                } else {
                    (v2, None)
                }
            }
        },
        _ => (v, None),
    }
}

proof fn lemma_count_present_bound(f: Seq<Option<Seq<u8>>>)
    ensures
        count_present(f) <= f.len(),
    decreases f.len(),
{
    if f.len() > 0 {
        lemma_count_present_bound(f.drop_last());
    }
}

proof fn lemma_count_present_fill(f: Seq<Option<Seq<u8>>>, i: int, d: Seq<u8>)
    requires
        0 <= i < f.len(),
        f[i] is None,
    ensures
        count_present(f.update(i, Some(d))) == count_present(f) + 1,
        count_present(f) < f.len(),
    decreases f.len(),
{
    let g = f.update(i, Some(d));
    if i == f.len() - 1 {
        assert(g.drop_last() =~= f.drop_last());
        lemma_count_present_bound(f.drop_last());
    } else {
        assert(g.drop_last() =~= f.drop_last().update(i, Some(d)));
        lemma_count_present_fill(f.drop_last(), i, d);
    }
}

proof fn lemma_count_present_empty(n: nat)
    ensures
        count_present(empty_slots(n)) == 0,
    decreases n,
{
    if n > 0 {
        assert(empty_slots(n).drop_last() =~= empty_slots((n - 1) as nat));
        lemma_count_present_empty((n - 1) as nat);
    }
}

impl UrDecoder {
    pub open spec fn wf(&self) -> bool {
        ur_inv(self@)
    }

    /// An idle decoder.
    pub fn new() -> (d: Self)
        ensures
            d.wf(),
            d@ == ur_idle(),
    {
        let d = Self { total: None, hash: None, fragments: Vec::new(), received: 0 };
        assert(d@.fragments =~= Seq::<Option<Seq<u8>>>::empty());
        d
    }

    /// Forgets the sequence in progress.
    pub fn reset(&mut self)
        ensures
            final(self).wf(),
            final(self)@ == ur_idle(),
    {
        self.total = None;
        self.hash = None;
        self.fragments.clear();
        self.received = 0;
        assert(self@.fragments =~= Seq::<Option<Seq<u8>>>::empty());
    }

    /// Feeds one payload. Anything but a UR fragment is ignored. Returns the
    /// joined data once every fragment of the sequence is in.
    pub fn feed(&mut self, payload: &QrPayload) -> (r: Option<Vec<u8>>)
        requires
            old(self).wf(),
            payload@ matches QrPayloadView::UrFragment { index, .. } ==> index >= 1,
        ensures
            final(self).wf(),
            final(self)@ == spec_feed(old(self)@, payload@).0,
            match r {
                Some(v) => spec_feed(old(self)@, payload@).1 == Some(v@),
                None => spec_feed(old(self)@, payload@).1 is None,
            },
    {
        let (index, total, hash, data) = match payload {
            QrPayload::UrFragment { index, total, hash, data } => (*index, *total, hash, data),
            _ => return None,
        };
        let ghost v0 = self@;
        if self.total.is_none() {
            let mut slots: Vec<Option<Vec<u8>>> = Vec::new();
            let mut k: u32 = 0;
            while k < total
                invariant
                    k <= total,
                    slots@.len() == k,
                    forall|j: int| 0 <= j < k ==> #[trigger] slots@[j] is None,
                decreases total - k,
            {
                slots.push(None);
                k = k + 1;
            }
            assert(slots_view(slots@) =~= empty_slots(total as nat));
            self.total = Some(total);
            self.hash = Some(String::from_str(hash.as_str()));
            self.fragments = slots;
            self.received = 0;
            proof {
                lemma_count_present_empty(total as nat);
            }
        }
        let ghost v1 = self@;
        assert(v1 == spec_feed_bound(v0, payload@));
        let same = match &self.hash {
            Some(h) => str_eq(h.as_str(), hash.as_str()),
            None => false,
        };
        if !same {
            return None;
        }
        let idx = (index - 1) as usize;
        if idx < self.fragments.len() && self.fragments[idx].is_none() {
            proof {
                lemma_count_present_fill(v1.fragments, idx as int, data@);
            }
            let ghost before = self.fragments@;
            self.fragments.set(idx, Some(to_vec(data.as_slice())));
            self.received = self.received + 1;
            assert(self@.fragments =~= v1.fragments.update(idx as int, Some(data@)));
        }
        let ghost v2 = self@;
        assert(v2 == spec_feed(v0, payload@).0);
        let t = match self.total {
            Some(t) => t,
            None => return None,
        };
        if self.received == t {
            let mut result: Vec<u8> = Vec::new();
            let mut i: usize = 0;
            while i < self.fragments.len()
                invariant
                    self@ == v2,
                    ur_inv(v2),
                    v2 == spec_feed(old(self)@, payload@).0,
                    spec_feed(old(self)@, payload@).1 == join_fragments(v2.fragments),
                    i <= self@.fragments.len(),
                    join_fragments(self@.fragments.take(i as int)) == Some(result@),
                decreases self@.fragments.len() - i,
            {
                assert(self@.fragments.take(i + 1).drop_last() =~= self@.fragments.take(
                    i as int,
                ));
                match &self.fragments[i] {
                    Some(d) => {
                        append_bytes(&mut result, d.as_slice());
                    },
                    None => {
                        proof {
                            lemma_join_missing(self@.fragments, i as int);
                        }
                        return None;
                    },
                }
                i = i + 1;
            }
            assert(self@.fragments.take(i as int) =~= self@.fragments);
            return Some(result);
        }
        None
    }

    /// Fragments received so far, and the sequence length (0 while idle).
    pub fn progress(&self) -> (r: (u32, u32))
        ensures
            r.0 == self@.received,
            r.1 == match self@.total {
                Some(t) => t,
                None => 0u32,
            },
    {
        (self.received, match self.total {
            Some(t) => t,
            None => 0,
        })
    }

    /// Whether a sequence is in progress.
    pub fn is_active(&self) -> (b: bool)
        ensures
            b == self@.total is Some,
    {
        self.total.is_some()
    }

    /// Whether every fragment of the sequence is in.
    pub fn is_complete(&self) -> (b: bool)
        ensures
            b == (self@.total matches Some(t) && self@.received == t),
    {
        match self.total {
            Some(t) => self.received == t,
            None => false,
        }
    }
}

/// The decoder state once the first fragment has bound it.
pub open spec fn spec_feed_bound(v: UrDecoderView, p: QrPayloadView) -> UrDecoderView {
    match p {
        QrPayloadView::UrFragment { total, hash, .. } => if v.total is None {
            UrDecoderView {
                total: Some(total),
                hash: Some(hash),
                fragments: empty_slots(total as nat),
                received: 0,
            }
        } else {
            v
        },
        _ => v,
    }
}

proof fn lemma_join_missing(f: Seq<Option<Seq<u8>>>, i: int)
    requires
        0 <= i < f.len(),
        f[i] is None,
    ensures
        join_fragments(f) is None,
    decreases f.len(),
{
    if i < f.len() - 1 {
        assert(f.drop_last()[i] is None);
        lemma_join_missing(f.drop_last(), i);
    }
}

impl Default for UrDecoder {
    fn default() -> (d: Self)
        ensures
            d.wf(),
            d@ == ur_idle(),
    {
        Self::new()
    }
}

/// A fragment belonging to the sequence `v` is bound to, with an index in
/// range.
pub open spec fn fits_sequence(v: UrDecoderView, p: QrPayloadView) -> bool {
    &&& v.total is Some
    &&& p matches QrPayloadView::UrFragment { index, hash, .. }
    &&& v.hash == Some(hash)
    &&& 1 <= index <= v.total->0
}

/// A repeated fragment changes nothing, and a fragment of another sequence
/// is ignored without disturbing the one in progress.
pub proof fn lemma_repeats_and_strangers_are_ignored(v: UrDecoderView, p: QrPayloadView)
    requires
        ur_inv(v),
        v.total is Some,
        p matches QrPayloadView::UrFragment { index, hash, .. } && (v.hash != Some(hash) || (1
            <= index <= v.total->0 && v.fragments[index - 1] is Some)),
    ensures
        spec_feed(v, p).0 == v,
{
}

/// Fragments of one sequence may arrive in any order: feeding two with
/// different indices leaves the same state whichever comes first.
pub proof fn lemma_fragment_order_is_irrelevant(v: UrDecoderView, a: QrPayloadView, b: QrPayloadView)
    requires
        ur_inv(v),
        fits_sequence(v, a),
        fits_sequence(v, b),
        a->index != b->index,
    ensures
        spec_feed(spec_feed(v, a).0, b).0 == spec_feed(spec_feed(v, b).0, a).0,
{
    let ia = a->index - 1;
    let ib = b->index - 1;
    let va = spec_feed(v, a).0;
    let vb = spec_feed(v, b).0;
    if v.fragments[ia] is None && v.fragments[ib] is None {
        assert(v.fragments.update(ia, Some(a->data)).update(ib, Some(b->data))
            =~= v.fragments.update(ib, Some(b->data)).update(ia, Some(a->data)));
    }
}

} // verus!
