//! JSON response bodies of the mint front-end that need no mint state.
use vstd::prelude::*;
use vstd::string::StrSliceExecFns;
use crate::util::push_char;

verus! {

/// ASCII digit of a value below ten.
pub open spec fn digit_char(d: nat) -> char {
    (0x30 + d) as char
}

/// Decimal digits of `n`, most significant first, without leading zeros.
pub open spec fn decimal(n: nat) -> Seq<char>
    decreases n,
{
    if n < 10 {
        seq![digit_char(n)]
    } else {
        decimal(n / 10).push(digit_char(n % 10))
    }
}

/// A character as it appears inside a JSON string literal: backslash and
/// double quote are escaped with a backslash, everything else is kept.
pub open spec fn escape_char(c: char) -> Seq<char> {
    if c == '\\' {
        seq!['\\', '\\']
    } else if c == '"' {
        seq!['\\', '"']
    } else {
        seq![c]
    }
}

/// `s` with every character escaped by [`escape_char`].
pub open spec fn escape_json(s: Seq<char>) -> Seq<char>
    decreases s.len(),
{
    if s.len() == 0 {
        Seq::empty()
    } else {
        escape_json(s.drop_last()) + escape_char(s.last())
    }
}

/// `{"code":<status>,"error":"<message>"}` with the message escaped.
pub open spec fn spec_error_body(status: nat, message: Seq<char>) -> Seq<char> {
    seq!['{', '"', 'c', 'o', 'd', 'e', '"', ':'] + decimal(status) + seq![
        ',',
        '"',
        'e',
        'r',
        'r',
        'o',
        'r',
        '"',
        ':',
        '"',
    ] + escape_json(message) + seq!['"', '}']
}

/// Appends the decimal digits of `n`.
pub(crate) fn push_decimal(s: &mut String, n: u64)
    ensures
        final(s)@ == old(s)@ + decimal(n as nat),
    decreases n,
{
    if n >= 10 {
        push_decimal(s, n / 10);
    }
    let d = (n % 10) as u8;
    push_char(s, (0x30u8 + d) as char);
    assert(((0x30u8 + d) as char) == digit_char((n % 10) as nat));
    if n < 10 {
        assert(decimal(n as nat) =~= seq![digit_char(n as nat)]);
    }
}

pub(crate) fn push_all(s: &mut String, chars: &[char])
    ensures
        final(s)@ == old(s)@ + chars@,
{
    let ghost start = s@;
    let mut i: usize = 0;
    while i < chars.len()
        invariant
            i <= chars@.len(),
            s@ == start + chars@.take(i as int),
        decreases chars@.len() - i,
    {
        push_char(s, chars[i]);
        assert(chars@.take(i + 1) =~= chars@.take(i as int).push(chars@[i as int]));
        i = i + 1;
    }
    assert(chars@.take(i as int) =~= chars@);
}

/// Error envelope `{"code":<status>,"error":"<message>"}`, the message
/// escaped so that it stays one JSON string.
pub fn error_body(status: u16, message: &str) -> (body: String)
    ensures
        body@ == spec_error_body(status as nat, message@),
{
    let mut out = String::new();
    push_all(&mut out, &['{', '"', 'c', 'o', 'd', 'e', '"', ':']);
    push_decimal(&mut out, status as u64);
    push_all(&mut out, &[',', '"', 'e', 'r', 'r', 'o', 'r', '"', ':', '"']);
    let ghost before = out@;
    let n = message.unicode_len();
    let mut i: usize = 0;
    while i < n
        invariant
            n == message@.len(),
            i <= n,
            out@ == before + escape_json(message@.take(i as int)),
        decreases n - i,
    {
        let c = message.get_char(i);
        if c == '\\' {
            push_char(&mut out, '\\');
            push_char(&mut out, '\\');
        } else if c == '"' {
            push_char(&mut out, '\\');
            push_char(&mut out, '"');
        } else {
            push_char(&mut out, c);
        }
        assert(message@.take(i + 1).drop_last() =~= message@.take(i as int));
        assert(out@ =~= before + escape_json(message@.take(i + 1)));
        i = i + 1;
    }
    assert(message@.take(n as int) =~= message@);
    push_all(&mut out, &['"', '}']);
    assert(out@ =~= spec_error_body(status as nat, message@));
    out
}

} // verus!
