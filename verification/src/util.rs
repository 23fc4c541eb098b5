//! Hex encoding helpers.
use vstd::prelude::*;
use vstd::string::StringSliceAdditionalSpecFns;
use vstd::string::StrSliceExecFns;
use vstd::utf8::is_char_boundary;
use vstd::utf8::encode_utf8;
use vstd::utf8::is_ascii_chars;
use vstd::utf8::is_ascii_chars_encode_utf8;
use vstd::utf8::encode_utf8_valid_utf8;
use vstd::utf8::is_char_boundary_iff_not_is_continuation_byte;
use vstd::utf8::is_char_boundary_start_end_of_seq;

verus! {

/// Lower-case hex digit of a nibble.
pub open spec fn hex_char(n: u8) -> char {
    if n < 10 {
        (0x30 + n) as char
    } else {
        (0x61 + n - 10) as char
    }
}

/// Lower-case hex encoding: two digits per byte, high nibble first.
pub open spec fn spec_encode_hex(bytes: Seq<u8>) -> Seq<char> {
    Seq::new(
        2 * bytes.len(),
        |i: int|
            if i % 2 == 0 {
                hex_char(bytes[i / 2] / 16)
            } else {
                hex_char(bytes[i / 2] % 16)
            },
    )
}

/// Appends a character to a string (`String::push`).
#[verifier::external_body]
pub(crate) fn push_char(s: &mut String, c: char)
    ensures
        final(s)@ == old(s)@.push(c),
{
    s.push(c);
}

fn nibble_char(n: u8) -> (c: char)
    requires
        n < 16,
    ensures
        c == hex_char(n),
{
    let digits: [char; 16] = [
        '0', '1', '2', '3', '4', '5', '6', '7', '8', '9', 'a', 'b', 'c', 'd', 'e', 'f',
    ];
    let c = digits[n as usize];
    assert(digits@[n as int] == hex_char(n));
    c
}

/// Lower-case hex encoding of `bytes`.
pub fn encode_hex(bytes: &[u8]) -> (s: String)
    ensures
        s@ == spec_encode_hex(bytes@),
{
    let mut result = String::new();
    let mut i: usize = 0;
    while i < bytes.len()
        invariant
            i <= bytes@.len(),
            result@ == spec_encode_hex(bytes@.take(i as int)),
        decreases bytes@.len() - i,
    {
        let b = bytes[i];
        assert(b >> 4 == b / 16 && b & 0x0F == b % 16) by (bit_vector);
        push_char(&mut result, nibble_char(b >> 4));
        push_char(&mut result, nibble_char(b & 0x0F));
        assert(result@ =~= spec_encode_hex(bytes@.take(i + 1)));
        i = i + 1;
    }
    assert(bytes@.take(i as int) =~= bytes@);
    result
}

/// Value of an ASCII hex digit (either case).
pub open spec fn hex_value(b: u8) -> Option<u8> {
    if 0x30 <= b <= 0x39 {
        Some((b - 0x30) as u8)
    } else if 0x61 <= b <= 0x66 {
        Some((b - 0x61 + 10) as u8)
    } else if 0x41 <= b <= 0x46 {
        Some((b - 0x41 + 10) as u8)
    } else {
        None
    }
}

/// Value of a two-character hex field as `u8::from_str_radix(_, 16)` reads
/// it: two hex digits, or a `+` sign and one digit.
pub open spec fn hex_pair_value(a: u8, b: u8) -> Option<u8> {
    if a == 0x2B {
        hex_value(b)
    } else {
        match (hex_value(a), hex_value(b)) {
            (Some(h), Some(l)) => Some((h * 16 + l) as u8),
            _ => None,
        }
    }
}

/// Decoding of the pairs from byte `i` on, with the bytes decoded so far.
pub open spec fn decode_pairs(bytes: Seq<u8>, i: nat, acc: Seq<u8>) -> Option<Seq<u8>>
    decreases bytes.len() - i,
{
    if i + 2 > bytes.len() {
        Some(acc)
    } else {
        match hex_pair_value(bytes[i as int], bytes[(i + 1) as int]) {
            Some(v) => decode_pairs(bytes, i + 2, acc.push(v)),
            None => None,
        }
    }
}

/// Hex decoding of a byte string of even length: `None` at the first
/// field that is not a valid hex pair.
pub open spec fn spec_decode_hex(bytes: Seq<u8>) -> Option<Seq<u8>> {
    if bytes.len() % 2 != 0 {
        None
    } else {
        decode_pairs(bytes, 0, Seq::empty())
    }
}

/// Whether decoding slices the string off a character boundary before it
/// stops: each field `s[i..i + 2]` it reaches must start and end on one.
pub open spec fn decode_slices_off_boundary(bytes: Seq<u8>, i: nat) -> bool
    decreases bytes.len() - i,
{
    if bytes.len() % 2 != 0 || i + 2 > bytes.len() {
        false
    } else if !is_char_boundary(bytes, i as int) || !is_char_boundary(bytes, (i + 2) as int) {
        true
    } else {
        match hex_pair_value(bytes[i as int], bytes[(i + 1) as int]) {
            Some(_) => decode_slices_off_boundary(bytes, i + 2),
            None => false,
        }
    }
}

proof fn lemma_hex_char_value(n: u8)
    requires
        n < 16,
    ensures
        '\0' <= hex_char(n) <= '\u{7f}',
        hex_char(n) != '+',
        hex_value(hex_char(n) as u8) == Some(n),
{
    if n < 10 {
        assert(((0x30 + n) as char) as u8 == (0x30 + n) as u8);
    } else {
        assert(((0x61 + n - 10) as char) as u8 == (0x61 + n - 10) as u8);
    }
}

proof fn lemma_decode_encoded_pairs(b: Seq<u8>, bs: Seq<u8>, k: nat)
    requires
        k <= b.len(),
        bs.len() == 2 * b.len(),
        forall|j: int|
            0 <= j < b.len() ==> hex_pair_value(#[trigger] bs[2 * j], bs[2 * j + 1]) == Some(b[j]),
    ensures
        decode_pairs(bs, 2 * k, b.take(k as int)) == Some(b),
    decreases b.len() - k,
{
    if k == b.len() {
        assert(b.take(k as int) =~= b);
    } else {
        assert(hex_pair_value(bs[2 * (k as int)], bs[2 * (k as int) + 1]) == Some(b[k as int]));
        assert(b.take(k as int).push(b[k as int]) =~= b.take(k + 1int));
        lemma_decode_encoded_pairs(b, bs, k + 1);
        assert(2 * k + 2 == 2 * (k + 1));
    }
}

proof fn lemma_no_off_boundary(bs: Seq<u8>, i: nat)
    requires
        bs.len() % 2 == 0,
        i % 2 == 0,
        forall|j: int| 0 <= j <= bs.len() ==> #[trigger] is_char_boundary(bs, j),
    ensures
        !decode_slices_off_boundary(bs, i),
    decreases bs.len() - i,
{
    if i + 2 <= bs.len() {
        assert(is_char_boundary(bs, i as int));
        assert(is_char_boundary(bs, (i + 2) as int));
        lemma_no_off_boundary(bs, i + 2);
    }
}

/// Decoding undoes encoding: the lower-case hex text of any bytes decodes
/// back to them, and decoding it never slices a character in two.
pub proof fn lemma_hex_roundtrip(b: Seq<u8>)
    ensures
        spec_decode_hex(encode_utf8(spec_encode_hex(b))) == Some(b),
        !decode_slices_off_boundary(encode_utf8(spec_encode_hex(b)), 0),
{
    let cs = spec_encode_hex(b);
    assert forall|i: int| 0 <= i < cs.len() implies '\0' <= #[trigger] cs[i] <= '\u{7f}' by {
        lemma_hex_char_value(b[i / 2] / 16);
        lemma_hex_char_value(b[i / 2] % 16);
    }
    assert(is_ascii_chars(cs));
    is_ascii_chars_encode_utf8(cs);
    let bs = encode_utf8(cs);
    assert forall|j: int| 0 <= j < b.len() implies hex_pair_value(
        #[trigger] bs[2 * j],
        bs[2 * j + 1],
    ) == Some(b[j]) by {
        let hi = b[j] / 16;
        let lo = b[j] % 16;
        lemma_hex_char_value(hi);
        lemma_hex_char_value(lo);
        assert(cs[2 * j] == hex_char(hi));
        assert(cs[2 * j + 1] == hex_char(lo));
        assert(bs[2 * j] == cs[2 * j] as u8);
        assert(bs[2 * j + 1] == cs[2 * j + 1] as u8);
        assert((hi * 16 + lo) as u8 == b[j]);
    }
    lemma_decode_encoded_pairs(b, bs, 0);
    assert(b.take(0) =~= Seq::<u8>::empty());
    encode_utf8_valid_utf8(cs);
    is_char_boundary_start_end_of_seq(bs);
    assert forall|j: int| 0 <= j <= bs.len() implies #[trigger] is_char_boundary(bs, j) by {
        if j < bs.len() {
            is_char_boundary_iff_not_is_continuation_byte(bs, j);
            assert(bs[j] == cs[j] as u8);
        }
    }
    lemma_no_off_boundary(bs, 0);
}

/// Hex digits are read in either case: `0`-`9` are 0 to 9, `a`-`f` and
/// `A`-`F` are 10 to 15, and no other byte is a digit.
pub proof fn lemma_hex_digits_either_case(b: u8)
    ensures
        0x30 <= b <= 0x39 ==> hex_value(b) == Some((b - 0x30) as u8),
        0x61 <= b <= 0x66 ==> hex_value(b) == Some((b - 0x61 + 10) as u8),
        0x41 <= b <= 0x46 ==> hex_value(b) == Some((b - 0x41 + 10) as u8) && hex_value(b) == hex_value(
            (b + 0x20) as u8,
        ),
        hex_value(b) is Some <==> (0x30 <= b <= 0x39 || 0x61 <= b <= 0x66 || 0x41 <= b <= 0x46),
{
}

/// Upper-case hex digit of a value below 16.
pub open spec fn upper_hex_digit(n: u8) -> u8 {
    if n < 10 {
        (0x30 + n) as u8
    } else {
        (0x41 + n - 10) as u8
    }
}

/// Upper-case hex text of `b`, two digits per byte, high nibble first.
pub open spec fn upper_hex_bytes(b: Seq<u8>) -> Seq<u8> {
    Seq::new(
        2 * b.len(),
        |i: int|
            if i % 2 == 0 {
                upper_hex_digit(b[i / 2] / 16)
            } else {
                upper_hex_digit(b[i / 2] % 16)
            },
    )
}

/// Decoding is case-insensitive: the upper-case hex text of any bytes
/// decodes back to them, as the lower-case text does.
pub proof fn lemma_hex_upper_roundtrip(b: Seq<u8>)
    ensures
        spec_decode_hex(upper_hex_bytes(b)) == Some(b),
{
    let bs = upper_hex_bytes(b);
    assert forall|j: int| 0 <= j < b.len() implies hex_pair_value(
        #[trigger] bs[2 * j],
        bs[2 * j + 1],
    ) == Some(b[j]) by {
        let hi = b[j] / 16;
        let lo = b[j] % 16;
        assert((2 * j) % 2 == 0 && (2 * j) / 2 == j);
        assert((2 * j + 1) % 2 == 1 && (2 * j + 1) / 2 == j);
        assert(bs[2 * j] == upper_hex_digit(hi));
        assert(bs[2 * j + 1] == upper_hex_digit(lo));
        assert(hex_value(upper_hex_digit(hi)) == Some(hi));
        assert(hex_value(upper_hex_digit(lo)) == Some(lo));
        assert((hi * 16 + lo) as u8 == b[j]);
    }
    assert(bs.len() % 2 == 0);
    lemma_decode_encoded_pairs(b, bs, 0);
    assert(b.take(0) =~= Seq::<u8>::empty());
}

fn hex_digit_value(b: u8) -> (v: Option<u8>)
    ensures
        v == hex_value(b),
{
    if 0x30 <= b && b <= 0x39 {
        Some(b - 0x30)
    } else if 0x61 <= b && b <= 0x66 {
        Some(b - 0x61 + 10)
    } else if 0x41 <= b && b <= 0x46 {
        Some(b - 0x41 + 10)
    } else {
        None
    }
}

/// Decodes a hex string; `None` for an odd length or a non-hex field.
/// Fields are parsed the way `u8::from_str_radix(_, 16)` parses them.
pub fn decode_hex(s: &str) -> (r: Option<Vec<u8>>)
    requires
        !decode_slices_off_boundary(s.spec_bytes(), 0),
    ensures
        match r {
            Some(v) => spec_decode_hex(s.spec_bytes()) == Some(v@),
            None => spec_decode_hex(s.spec_bytes()) is None,
        },
{
    let bytes = s.as_bytes();
    if bytes.len() % 2 != 0 {
        return None;
    }
    let ghost all = bytes@;
    let mut result: Vec<u8> = Vec::with_capacity(bytes.len() / 2);
    let mut i: usize = 0;
    while i < bytes.len()
        invariant
            all == bytes@,
            all == s.spec_bytes(),
            all.len() % 2 == 0,
            i <= all.len(),
            i % 2 == 0,
            spec_decode_hex(all) == decode_pairs(all, i as nat, result@),
        decreases all.len() - i,
    {
        let a = bytes[i];
        let b = bytes[i + 1];
        let v = if a == 0x2B {
            hex_digit_value(b)
        } else {
            match (hex_digit_value(a), hex_digit_value(b)) {
                (Some(h), Some(l)) => Some(h * 16 + l),
                _ => None,
            }
        };
        match v {
            Some(byte) => {
                result.push(byte);
            },
            None => {
                assert(v == hex_pair_value(all[i as int], all[i + 1]));
                assert(decode_pairs(all, i as nat, result@) is None);
                return None;
            },
        }
        i = i + 2;
    }
    Some(result)
}

/// Whether two strings hold the same characters.
pub(crate) fn str_eq(a: &str, b: &str) -> (r: bool)
    ensures
        r == (a@ == b@),
{
    let n = a.unicode_len();
    if n != b.unicode_len() {
        return false;
    }
    let mut i: usize = 0;
    while i < n
        invariant
            n == a@.len(),
            n == b@.len(),
            i <= n,
            a@.take(i as int) == b@.take(i as int),
        decreases n - i,
    {
        if a.get_char(i) != b.get_char(i) {
            assert(a@[i as int] != b@[i as int]);
            return false;
        }
        assert(a@.take(i + 1) =~= a@.take(i as int).push(a@[i as int]));
        assert(b@.take(i + 1) =~= b@.take(i as int).push(b@[i as int]));
        i = i + 1;
    }
    assert(a@.take(n as int) =~= a@);
    assert(b@.take(n as int) =~= b@);
    true
}

} // verus!
