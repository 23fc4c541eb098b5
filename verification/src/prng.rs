//! Simple xorshift64 PRNG for demo purposes (not cryptographically secure).
use vstd::prelude::*;

verus! {

/// One xorshift64 step (shifts 13, 7, 17).
pub open spec fn xorshift64(s: u64) -> u64 {
    let a = s ^ (s << 13u64);
    let b = a ^ (a >> 7u64);
    b ^ (b << 17u64)
}

/// The state after `n` steps.
pub open spec fn xorshift64_iter(s: u64, n: nat) -> u64
    decreases n,
{
    if n == 0 {
        s
    } else {
        xorshift64(xorshift64_iter(s, (n - 1) as nat))
    }
}

/// Little-endian byte `i` of `v`.
pub open spec fn le_byte(v: u64, i: nat) -> u8 {
    ((v >> (8 * i) as u64) % 256) as u8
}

/// The first `n` bytes of the stream a generator in state `s` produces:
/// each step's output contributes its 8 bytes, least significant first.
pub open spec fn xorshift64_bytes(s: u64, n: nat) -> Seq<u8> {
    Seq::new(n, |j: int| le_byte(xorshift64_iter(s, (j / 8 + 1) as nat), (j % 8) as nat))
}

/// Executes one xorshift64 step.
pub fn xorshift64_step(s: u64) -> (r: u64)
    ensures
        r == xorshift64(s),
{
    let mut x = s;
    x = x ^ (x << 13u64);
    x = x ^ (x >> 7u64);
    x = x ^ (x << 17u64);
    x
}

/// Writes the stream bytes of the steps after `s` into `dest`: each step's
/// 8 little-endian bytes, the last step possibly cut short. Returns the
/// state after the last step used.
pub fn fill_from_stream(s: u64, dest: &mut [u8]) -> (next: u64)
    ensures
        final(dest)@ == xorshift64_bytes(s, old(dest)@.len()),
        next == xorshift64_iter(s, (old(dest)@.len() + 7) as nat / 8),
{
    let len = dest.len();
    let mut state = s;
    let mut offset: usize = 0;
    let mut k: usize = 0;
    while offset < len
        invariant
            len == dest@.len(),
            offset <= len,
            offset < len ==> offset == 8 * k,
            k == (offset + 7) / 8,
            state == xorshift64_iter(s, k as nat),
            forall|j: int|
                0 <= j < offset ==> dest@[j] == #[trigger] xorshift64_bytes(s, len as nat)[j],
        decreases len - offset,
    {
        state = xorshift64_step(state);
        let take: usize = if len - offset < 8 {
            len - offset
        } else {
            8
        };
        let mut i: usize = 0;
        while i < take
            invariant
                len == dest@.len(),
                offset == 8 * k,
                offset + take <= len,
                take <= 8,
                i <= take,
                state == xorshift64_iter(s, (k + 1) as nat),
                forall|j: int|
                    0 <= j < offset + i ==> dest@[j] == #[trigger] xorshift64_bytes(s, len as nat)[j],
            decreases take - i,
        {
            let b = ((state >> ((i * 8) as u64)) % 256) as u8;
            dest[offset + i] = b;
            assert((offset + i) / 8 == k && (offset + i) % 8 == i) by (nonlinear_arith)
                requires
                    offset == 8 * k,
                    i < 8,
            ;
            i = i + 1;
        }
        assert((offset + take + 7) / 8 == k + 1) by (nonlinear_arith)
            requires
                offset == 8 * k,
                1 <= take <= 8,
        ;
        offset = offset + take;
        k = k + 1;
    }
    assert(dest@ =~= xorshift64_bytes(s, len as nat));
    state
}

pub struct Prng {
    state: u64,
}

impl Prng {
    /// Current generator state.
    pub closed spec fn state(&self) -> u64 {
        self.state
    }

    pub fn new(seed: u32) -> (p: Self)
        ensures
            p.state() == seed as u64,
    {
        Self { state: seed as u64 }
    }

    /// Advances the generator one xorshift64 step and returns the new state.
    pub fn next_u64(&mut self) -> (v: u64)
        ensures
            v == xorshift64(old(self).state()),
            final(self).state() == v,
    {
        self.state = xorshift64_step(self.state);
        self.state
    }

    /// Fills `buf` from the stream: one step per 8-byte chunk, bytes taken
    /// least significant first.
    pub fn fill_bytes(&mut self, buf: &mut [u8])
        ensures
            final(buf)@ == xorshift64_bytes(old(self).state(), old(buf)@.len()),
            final(self).state() == xorshift64_iter(
                old(self).state(),
                (old(buf)@.len() + 7) as nat / 8,
            ),
    {
        self.state = fill_from_stream(self.state, buf);
    }
}

} // verus!
