//! FSP service-datagram segmentation codec.
//!
//! Service envelopes larger than the transport frame cap are split into
//! datagrams that each carry a 2-byte `[msg_id][flags]` header. The low seven
//! bits of `flags` hold the segment index, the top bit marks the final segment.
//! The receiver reassembles strictly in order; any gap or interleave drops the
//! message and the RPC layer above retries.
use vstd::prelude::*;

verus! {

/// Wire bytes prepended to every segment: `[msg_id][flags]`.
pub const SEGMENT_HEADER_LEN: usize = 2;

/// Set in `flags` on the final segment of a message.
pub const LAST_FLAG: u8 = 0x80;

/// Upper bound on segments per message (7-bit index space).
pub const MAX_SEGMENTS: usize = 128;

/// Errors produced by [`Reassembler::push`]. The in-flight message is always
/// dropped when an error is returned.
#[derive(Debug, Clone, Copy, PartialEq, Eq, Structural)]
pub enum FragError {
    /// Segment shorter than the 2-byte header.
    TruncatedHeader,
    /// Strict in-order violation (gap or mid-stream start); message dropped.
    OutOfOrder,
    /// Reassembled frame exceeds the reassembler buffer.
    BufferOverflow,
}

// ---------------------------------------------------------------------------
// Sender side: the segment layout as mathematics
// ---------------------------------------------------------------------------

/// Payload bytes that fit in one datagram of `mtu` bytes.
pub open spec fn payload_cap(mtu: nat) -> nat {
    (mtu - SEGMENT_HEADER_LEN) as nat
}

/// Number of segments a frame of `frame_len` bytes needs at `mtu`:
/// the ceiling of `frame_len / cap`, and at least one.
pub open spec fn spec_segment_count(frame_len: nat, mtu: nat) -> nat {
    let cap = payload_cap(mtu);
    if frame_len == 0 {
        1
    } else if frame_len % cap == 0 {
        frame_len / cap
    } else {
        frame_len / cap + 1
    }
}

/// The `flags` byte of segment `idx` out of `total`.
pub open spec fn spec_flags(idx: nat, total: nat) -> u8 {
    if idx + 1 == total {
        (LAST_FLAG + idx) as u8
    } else {
        idx as u8
    }
}

/// First payload byte of segment `idx`.
pub open spec fn segment_start(frame_len: nat, mtu: nat, idx: nat) -> nat {
    idx * payload_cap(mtu)
}

/// One past the last payload byte of segment `idx`.
pub open spec fn segment_end(frame_len: nat, mtu: nat, idx: nat) -> nat {
    let e = idx * payload_cap(mtu) + payload_cap(mtu);
    if e < frame_len {
        e
    } else {
        frame_len
    }
}

/// Wire bytes of segment `idx`: header followed by its slice of the frame.
pub open spec fn spec_segment(frame: Seq<u8>, mtu: nat, msg_id: u8, idx: nat) -> Seq<u8> {
    let total = spec_segment_count(frame.len(), mtu);
    seq![msg_id, spec_flags(idx, total)] + frame.subrange(
        segment_start(frame.len(), mtu, idx) as int,
        segment_end(frame.len(), mtu, idx) as int,
    )
}

/// All wire segments of `frame`, in emission order.
pub open spec fn spec_segments(frame: Seq<u8>, mtu: nat, msg_id: u8) -> Seq<Seq<u8>> {
    Seq::new(
        spec_segment_count(frame.len(), mtu),
        |i: int| spec_segment(frame, mtu, msg_id, i as nat),
    )
}

/// Geometry of the split: every segment except the last is full, the last
/// one ends exactly at the end of the frame.
proof fn lemma_count_bounds(len: nat, mtu: nat)
    requires
        mtu > SEGMENT_HEADER_LEN,
    ensures
        spec_segment_count(len, mtu) >= 1,
        len == 0 ==> spec_segment_count(len, mtu) == 1,
        len > 0 ==> (spec_segment_count(len, mtu) - 1) * payload_cap(mtu) < len,
        len <= spec_segment_count(len, mtu) * payload_cap(mtu),
{
    let cap = payload_cap(mtu);
    let q = len / cap;
    let r = len % cap;
    assert(len == q * cap + r && 0 <= r < cap) by (nonlinear_arith)
        requires
            cap > 0,
            q == len / cap,
            r == len % cap,
    ;
    if len > 0 {
        if r == 0 {
            assert(q >= 1) by (nonlinear_arith)
                requires
                    len == q * cap,
                    len > 0,
                    cap > 0,
            ;
            assert((q - 1) * cap == q * cap - cap) by (nonlinear_arith);
        } else {
            assert((q + 1) * cap == q * cap + cap) by (nonlinear_arith);
        }
    }
}

/// Segment `idx` starts inside the frame (or at 0 for an empty frame) and
/// its slice bounds are ordered.
proof fn lemma_segment_bounds(len: nat, mtu: nat, idx: nat)
    requires
        mtu > SEGMENT_HEADER_LEN,
        idx < spec_segment_count(len, mtu),
    ensures
        segment_start(len, mtu, idx) <= segment_end(len, mtu, idx) <= len,
        segment_end(len, mtu, idx) - segment_start(len, mtu, idx) <= payload_cap(mtu),
        idx + 1 < spec_segment_count(len, mtu) ==> segment_end(len, mtu, idx) == (idx + 1)
            * payload_cap(mtu),
        idx + 1 == spec_segment_count(len, mtu) ==> segment_end(len, mtu, idx) == len,
        segment_end(len, mtu, idx) == segment_start(len, mtu, idx + 1) || segment_end(len, mtu, idx)
            == len,
{
    let cap = payload_cap(mtu);
    let total = spec_segment_count(len, mtu);
    lemma_count_bounds(len, mtu);
    assert((idx + 1) * cap == idx * cap + cap) by (nonlinear_arith);
    if len > 0 {
        assert(idx * cap <= (total - 1) * cap) by (nonlinear_arith)
            requires
                idx <= total - 1,
        ;
        if idx + 1 < total {
            assert((idx + 1) * cap <= (total - 1) * cap) by (nonlinear_arith)
                requires
                    idx + 1 <= total - 1,
            ;
        }
    } else {
        assert(idx == 0);
        assert(idx * cap == 0) by (nonlinear_arith)
            requires
                idx == 0,
        ;
    }
}

/// Number of segments [`for_each_segment`] emits for `frame_len` payload bytes.
pub fn segment_count(frame_len: usize, mtu: usize) -> (count: usize)
    requires
        mtu > SEGMENT_HEADER_LEN,
    ensures
        count == spec_segment_count(frame_len as nat, mtu as nat),
{
    let cap = mtu - SEGMENT_HEADER_LEN;
    let q = frame_len / cap;
    let up = if frame_len % cap == 0 {
        q
    } else {
        assert(q + 1 <= frame_len) by (nonlinear_arith)
            requires
                q == frame_len / cap,
                frame_len % cap != 0,
                cap >= 1,
        ;
        q + 1
    };
    proof {
        lemma_count_bounds(frame_len as nat, mtu as nat);
    }
    if up < 1 {
        1
    } else {
        up
    }
}

/// Header bytes of segment `idx` out of `total`.
fn segment_header(msg_id: u8, idx: usize, total: usize) -> (header: [u8; SEGMENT_HEADER_LEN])
    requires
        idx < total <= MAX_SEGMENTS,
    ensures
        header@ == seq![msg_id, spec_flags(idx as nat, total as nat)],
{
    let last = idx + 1 == total;
    let small = idx as u8;
    let flags = if last {
        assert(LAST_FLAG | small == (LAST_FLAG + small) as u8) by (bit_vector)
            requires
                small < 128,
        ;
        LAST_FLAG | small
    } else {
        small
    };
    let header = [msg_id, flags];
    assert(header@ =~= seq![msg_id, spec_flags(idx as nat, total as nat)]);
    header
}

/// Whether `h` and `p` are the header and payload of segment `i` of `frame`.
pub open spec fn segment_parts_at(
    frame: Seq<u8>,
    mtu: nat,
    msg_id: u8,
    i: int,
    h: Seq<u8>,
    p: Seq<u8>,
) -> bool {
    let total = spec_segment_count(frame.len(), mtu);
    &&& 0 <= i < total
    &&& h == seq![msg_id, spec_flags(i as nat, total)]
    &&& p == frame.subrange(
        segment_start(frame.len(), mtu, i as nat) as int,
        segment_end(frame.len(), mtu, i as nat) as int,
    )
}

/// Whether `h` and `p` are the header and payload of some segment of `frame`.
pub open spec fn is_segment_of(frame: Seq<u8>, mtu: nat, msg_id: u8, h: Seq<u8>, p: Seq<u8>) -> bool {
    exists|i: int| #[trigger] segment_parts_at(frame, mtu, msg_id, i, h, p)
}

/// Splits `frame` into wire segments, invoking `emit(header, payload)` once
/// per segment where `header` is the 2-byte `[msg_id][flags]` prefix. `emit`
/// need only accept the segments of `frame`: every call hands it one.
///
/// Call number `i` receives exactly the parts of `spec_segment(frame, mtu,
/// msg_id, i)`: the header `[msg_id, spec_flags(i, total)]` and the frame bytes
/// from `segment_start` to `segment_end`. An empty frame still emits one
/// (header-only, last-flagged) segment. `mtu` is the datagram size budget
/// including the header; it must exceed [`SEGMENT_HEADER_LEN`], and the frame
/// must fit in [`MAX_SEGMENTS`] segments.
pub fn for_each_segment<F: FnMut(&[u8; SEGMENT_HEADER_LEN], &[u8])>(
    frame: &[u8],
    mtu: usize,
    msg_id: u8,
    mut emit: F,
)
    requires
        mtu > SEGMENT_HEADER_LEN,
        spec_segment_count(frame@.len(), mtu as nat) <= MAX_SEGMENTS,
        forall|h: &[u8; SEGMENT_HEADER_LEN], p: &[u8]|
            #[trigger] is_segment_of(frame@, mtu as nat, msg_id, h@, p@) ==> call_requires(
                emit,
                (h, p),
            ),
{
    let cap = mtu - SEGMENT_HEADER_LEN;
    let total = segment_count(frame.len(), mtu);
    let ghost len = frame@.len();
    proof {
        lemma_count_bounds(len, mtu as nat);
    }
    let mut offset: usize = 0;
    let mut idx: usize = 0;
    while idx < total
        invariant
            cap == payload_cap(mtu as nat),
            mtu > SEGMENT_HEADER_LEN,
            total == spec_segment_count(len, mtu as nat),
            total <= MAX_SEGMENTS,
            len == frame@.len(),
            idx <= total,
            idx < total ==> offset == segment_start(len, mtu as nat, idx as nat),
            forall|h: &[u8; SEGMENT_HEADER_LEN], p: &[u8]|
                #[trigger] is_segment_of(frame@, mtu as nat, msg_id, h@, p@) ==> call_requires(
                    emit,
                    (h, p),
                ),
        decreases total - idx,
    {
        proof {
            lemma_segment_bounds(len, mtu as nat, idx as nat);
        }
        let end = if cap < frame.len() - offset {
            offset + cap
        } else {
            frame.len()
        };
        let header = segment_header(msg_id, idx, total);
        let hdr = &header;
        let part = &frame[offset..end];
        assert(segment_parts_at(frame@, mtu as nat, msg_id, idx as int, hdr@, part@));
        assert(is_segment_of(frame@, mtu as nat, msg_id, hdr@, part@));
        emit(hdr, part);
        offset = end;
        idx = idx + 1;
    }
}

/// Segment views, for stating what [`collect_segments`] builds.
pub open spec fn segment_views(v: Seq<Vec<u8>>) -> Seq<Seq<u8>> {
    v.map_values(|s: Vec<u8>| s@)
}

/// The wire segments of `frame`, each header followed by its payload, in
/// emission order: what a responder sends back as datagrams.
pub fn collect_segments(frame: &[u8], mtu: usize, msg_id: u8) -> (segs: Vec<Vec<u8>>)
    requires
        mtu > SEGMENT_HEADER_LEN,
        spec_segment_count(frame@.len(), mtu as nat) <= MAX_SEGMENTS,
    ensures
        segment_views(segs@) == spec_segments(frame@, mtu as nat, msg_id),
{
    let cap = mtu - SEGMENT_HEADER_LEN;
    let total = segment_count(frame.len(), mtu);
    let ghost len = frame@.len();
    proof {
        lemma_count_bounds(len, mtu as nat);
    }
    let mut out: Vec<Vec<u8>> = Vec::new();
    let mut offset: usize = 0;
    let mut idx: usize = 0;
    while idx < total
        invariant
            cap == payload_cap(mtu as nat),
            mtu > SEGMENT_HEADER_LEN,
            total == spec_segment_count(len, mtu as nat),
            total <= MAX_SEGMENTS,
            len == frame@.len(),
            idx <= total,
            idx < total ==> offset == segment_start(len, mtu as nat, idx as nat),
            out@.len() == idx,
            forall|i: int|
                0 <= i < idx ==> (#[trigger] out@[i])@ == spec_segment(frame@, mtu as nat, msg_id, i as nat),
        decreases total - idx,
    {
        proof {
            lemma_segment_bounds(len, mtu as nat, idx as nat);
        }
        let end = if cap < frame.len() - offset {
            offset + cap
        } else {
            frame.len()
        };
        let header = segment_header(msg_id, idx, total);
        let mut seg: Vec<u8> = Vec::with_capacity(SEGMENT_HEADER_LEN + (end - offset));
        seg.push(header[0]);
        seg.push(header[1]);
        crate::bytes::append_bytes(&mut seg, &frame[offset..end]);
        assert(seg@ =~= spec_segment(frame@, mtu as nat, msg_id, idx as nat));
        out.push(seg);
        offset = end;
        idx = idx + 1;
    }
    assert(segment_views(out@) =~= spec_segments(frame@, mtu as nat, msg_id));
    out
}

// ---------------------------------------------------------------------------
// Receiver side
// ---------------------------------------------------------------------------

/// Abstract state of a [`Reassembler`]: whether a message is in flight, its id,
/// the index expected next and the bytes collected so far.
pub struct ReassemblerView {
    pub active: bool,
    pub msg_id: u8,
    pub next_idx: u8,
    pub data: Seq<u8>,
}

/// State reached by every reassembler: an in-flight message has accepted at
/// least one and at most [`MAX_SEGMENTS`] segments.
pub open spec fn view_inv(v: ReassemblerView) -> bool {
    v.active ==> 1 <= v.next_idx <= MAX_SEGMENTS
}

/// Segment index carried in a flags byte.
pub open spec fn flags_index(flags: u8) -> u8 {
    (flags % 128) as u8
}

/// Whether a flags byte marks the final segment.
pub open spec fn flags_last(flags: u8) -> bool {
    flags >= LAST_FLAG
}

/// The effect of one [`Reassembler::push`] on a buffer of capacity `cap`:
/// the state afterwards and the result returned.
pub open spec fn reasm_step(st: ReassemblerView, segment: Seq<u8>, cap: nat) -> (
    ReassemblerView,
    Result<Option<Seq<u8>>, FragError>,
) {
    if segment.len() < SEGMENT_HEADER_LEN {
        (ReassemblerView { active: false, ..st }, Err(FragError::TruncatedHeader))
    } else {
        let msg_id = segment[0];
        let flags = segment[1];
        let payload = segment.skip(SEGMENT_HEADER_LEN as int);
        let idx = flags_index(flags);
        let in_order = st.active && msg_id == st.msg_id && idx == st.next_idx;
        if !in_order && idx != 0 {
            (ReassemblerView { active: false, ..st }, Err(FragError::OutOfOrder))
        } else {
            let base = if in_order {
                st
            } else {
                ReassemblerView { active: true, msg_id, next_idx: 0, data: Seq::empty() }
            };
            if base.data.len() + payload.len() > cap {
                (ReassemblerView { active: false, ..base }, Err(FragError::BufferOverflow))
            } else {
                let data = base.data + payload;
                let next_idx = ((base.next_idx + 1) % 256) as u8;
                if flags_last(flags) {
                    (
                        ReassemblerView { active: false, msg_id: base.msg_id, next_idx, data },
                        Ok(Some(data)),
                    )
                } else {
                    (
                        ReassemblerView { active: true, msg_id: base.msg_id, next_idx, data },
                        Ok(None),
                    )
                }
            }
        }
    }
}

/// Feeds `segments` in order: the final state and the result of each push.
pub open spec fn reasm_feed(st: ReassemblerView, segments: Seq<Seq<u8>>, cap: nat) -> (
    ReassemblerView,
    Seq<Result<Option<Seq<u8>>, FragError>>,
)
    decreases segments.len(),
{
    if segments.len() == 0 {
        (st, Seq::empty())
    } else {
        let (mid, results) = reasm_feed(st, segments.drop_last(), cap);
        let (last, r) = reasm_step(mid, segments.last(), cap);
        (last, results.push(r))
    }
}

/// Results of feeding a frame's segments: `None` until the last, which
/// returns the whole frame.
pub open spec fn completed_results(frame: Seq<u8>, count: nat) -> Seq<
    Result<Option<Seq<u8>>, FragError>,
> {
    Seq::new(
        count,
        |i: int|
            if i + 1 == count {
                Ok(Some(frame))
            } else {
                Ok(None)
            },
    )
}

/// Result of a push, with the returned frame taken by its bytes.
pub open spec fn push_result_view(r: Result<Option<&[u8]>, FragError>) -> Result<
    Option<Seq<u8>>,
    FragError,
> {
    match r {
        Ok(Some(s)) => Ok(Some(s@)),
        Ok(None) => Ok(None),
        Err(e) => Err(e),
    }
}

/// In-order reassembler for received segments.
///
/// Strictly in-order per `msg_id`. A segment with index 0 always starts a
/// fresh message; if a different message was in flight it is dropped. Any
/// other gap, interleave, or oversized result drops the in-flight message and
/// returns an error.
#[derive(Debug)]
pub struct Reassembler<const N: usize> {
    buf: [u8; N],
    len: usize,
    next_idx: u8,
    msg_id: u8,
    active: bool,
}

impl<const N: usize> View for Reassembler<N> {
    type V = ReassemblerView;

    closed spec fn view(&self) -> ReassemblerView {
        ReassemblerView {
            active: self.active,
            msg_id: self.msg_id,
            next_idx: self.next_idx,
            data: self.buf@.subrange(0, self.len as int),
        }
    }
}

impl<const N: usize> Reassembler<N> {
    /// Well-formedness: the collected bytes fit the buffer, and the state is
    /// one that pushes can reach.
    pub open spec fn inv(&self) -> bool {
        &&& self.len_fits()
        &&& view_inv(self@)
    }

    /// The count of collected bytes fits the buffer.
    pub closed spec fn len_fits(&self) -> bool {
        self.len <= N
    }

    pub fn new() -> (r: Self)
        ensures
            r.inv(),
            !r@.active,
            r@.data.len() == 0,
    {
        Self { buf: [0u8; N], len: 0, next_idx: 0, msg_id: 0, active: false }
    }

    /// Feeds one wire segment. Returns the completed frame on the final
    /// segment, `None` while more segments are expected, or an error (with
    /// the in-flight message dropped).
    pub fn push(&mut self, segment: &[u8]) -> (r: Result<Option<&[u8]>, FragError>)
        requires
            old(self).inv(),
        ensures
            final(self).inv(),
            (final(self)@, push_result_view(r)) == reasm_step(old(self)@, segment@, N as nat),
    {
        if segment.len() < SEGMENT_HEADER_LEN {
            self.active = false;
            return Err(FragError::TruncatedHeader);
        }
        let ghost st = self@;
        let ghost expected = reasm_step(st, segment@, N as nat);
        let msg_id = segment[0];
        let flags = segment[1];
        let last = flags & LAST_FLAG != 0;
        let idx = flags & !LAST_FLAG;
        assert(idx == flags_index(flags) && last == flags_last(flags)) by (bit_vector)
            requires
                idx == flags & !0x80u8,
                last == (flags & 0x80u8 != 0),
        ;
        let ghost payload = segment@.skip(SEGMENT_HEADER_LEN as int);
        let plen = segment.len() - SEGMENT_HEADER_LEN;

        let in_order = self.active && msg_id == self.msg_id && idx == self.next_idx;
        if !in_order {
            if idx != 0 {
                self.active = false;
                return Err(FragError::OutOfOrder);
            }
            self.active = true;
            self.msg_id = msg_id;
            self.next_idx = 0;
            self.len = 0;
            assert(self@.data =~= Seq::<u8>::empty());
        }
        let ghost base = self@;
        assert(payload.len() == plen);
        if plen > N - self.len {
            self.active = false;
            return Err(FragError::BufferOverflow);
        }
        let start = self.len;
        let ghost before = self.buf@;
        let mut j: usize = 0;
        while j < plen
            invariant
                start + plen <= N,
                segment@.len() >= SEGMENT_HEADER_LEN,
                SEGMENT_HEADER_LEN + plen == segment.len(),
                before.len() == N,
                self.active == base.active,
                self.msg_id == base.msg_id,
                self.next_idx == base.next_idx,
                self.len == start,
                j <= plen,
                self.buf@.len() == N,
                self.buf@.subrange(0, start as int) == before.subrange(0, start as int),
                self.buf@.subrange(start as int, (start + j) as int) == segment@.subrange(
                    SEGMENT_HEADER_LEN as int,
                    (SEGMENT_HEADER_LEN + j) as int,
                ),
            decreases plen - j,
        {
            self.buf[start + j] = segment[SEGMENT_HEADER_LEN + j];
            assert(self.buf@.subrange(start as int, (start + j + 1) as int) =~= segment@.subrange(
                SEGMENT_HEADER_LEN as int,
                (SEGMENT_HEADER_LEN + j + 1) as int,
            ).take(j + 1));
            j = j + 1;
        }
        self.len = start + plen;
        self.next_idx = self.next_idx.wrapping_add(1);
        assert(self.buf@.subrange(start as int, (start + plen) as int) =~= payload);
        assert(self.buf@.subrange(0, self.len as int) =~= before.subrange(0, start as int)
            + payload);
        assert(self@.data == base.data + payload);
        if last {
            self.active = false;
            let len = self.len;
            let out = &self.buf[0..len];
            assert(out@ == self@.data);
            return Ok(Some(out));
        }
        Ok(None)
    }

    /// Pushes `segments` in order; the result of each push, a completed
    /// frame copied out.
    pub fn push_all(&mut self, segments: &[Vec<u8>]) -> (rs: Vec<Result<Option<Vec<u8>>, FragError>>)
        requires
            old(self).inv(),
        ensures
            final(self).inv(),
            (final(self)@, owned_results_view(rs@)) == reasm_feed(
                old(self)@,
                segment_views(segments@),
                N as nat,
            ),
    {
        let ghost start = self@;
        let ghost segs = segment_views(segments@);
        let mut rs: Vec<Result<Option<Vec<u8>>, FragError>> = Vec::new();
        let mut i: usize = 0;
        assert(segs.take(0) =~= Seq::<Seq<u8>>::empty());
        assert(owned_results_view(rs@) =~= Seq::<Result<Option<Seq<u8>>, FragError>>::empty());
        while i < segments.len()
            invariant
                self.inv(),
                start == old(self)@,
                segs == segment_views(segments@),
                i <= segments@.len(),
                (self@, owned_results_view(rs@)) == reasm_feed(start, segs.take(i as int), N as nat),
            decreases segments@.len() - i,
        {
            proof {
                lemma_feed_unfold(start, segs, (i + 1) as nat, N as nat);
                assert(segs.take(i + 1 - 1) =~= segs.take(i as int));
            }
            let r = match self.push(segments[i].as_slice()) {
                Ok(Some(out)) => Ok(Some(crate::bytes::to_vec(out))),
                Ok(None) => Ok(None),
                Err(e) => Err(e),
            };
            let ghost before = rs@;
            rs.push(r);
            assert(owned_results_view(rs@) =~= owned_results_view(before).push(owned_result_view(r)));
            i = i + 1;
        }
        assert(segs.take(i as int) =~= segs);
        rs
    }
}

/// A push result that owns its frame, taken by its bytes.
pub open spec fn owned_result_view(r: Result<Option<Vec<u8>>, FragError>) -> Result<
    Option<Seq<u8>>,
    FragError,
> {
    match r {
        Ok(Some(v)) => Ok(Some(v@)),
        Ok(None) => Ok(None),
        Err(e) => Err(e),
    }
}

/// Push results taken by their bytes.
pub open spec fn owned_results_view(rs: Seq<Result<Option<Vec<u8>>, FragError>>) -> Seq<
    Result<Option<Seq<u8>>, FragError>,
> {
    rs.map_values(|r: Result<Option<Vec<u8>>, FragError>| owned_result_view(r))
}

impl<const N: usize> Default for Reassembler<N> {
    fn default() -> (r: Self)
        ensures
            r.inv(),
            !r@.active,
            r@.data.len() == 0,
    {
        Self::new()
    }
}

// ---------------------------------------------------------------------------
// Laws
// ---------------------------------------------------------------------------

/// A segment of another message never joins the one in flight: when a
/// message is in flight and a segment with a different id and a nonzero
/// index arrives, the push is refused as out of order and the message is
/// dropped.
pub proof fn lemma_foreign_segment_refused(st: ReassemblerView, segment: Seq<u8>, cap: nat)
    requires
        st.active,
        segment.len() >= SEGMENT_HEADER_LEN,
        segment[0] != st.msg_id,
        segment[1] % 128 != 0,
    ensures
        reasm_step(st, segment, cap) == (
        ReassemblerView { active: false, ..st },
        Err::<Option<Seq<u8>>, FragError>(FragError::OutOfOrder),
    ),
{
}

/// Every accepted segment belongs to the message it extends: after a push
/// that succeeds, the message in flight (or just completed) carries the
/// segment's id, and its bytes are the segment's payload alone (a fresh
/// message) or the bytes collected for that same id followed by the payload.
pub proof fn lemma_accepted_segment_same_message(st: ReassemblerView, segment: Seq<u8>, cap: nat)
    ensures
        reasm_step(st, segment, cap).1 is Ok ==> ({
            let next = reasm_step(st, segment, cap).0;
            let payload = segment.skip(SEGMENT_HEADER_LEN as int);
            &&& next.msg_id == segment[0]
            &&& next.data == payload || (st.active && st.msg_id == segment[0] && next.data
                == st.data + payload)
            &&& reasm_step(st, segment, cap).1 matches Ok(Some(f)) ==> f == next.data
        }),
{
}

/// One more segment on top of a fed prefix.
proof fn lemma_feed_unfold(st: ReassemblerView, segs: Seq<Seq<u8>>, k: nat, cap: nat)
    requires
        1 <= k <= segs.len(),
    ensures
        reasm_feed(st, segs.take(k as int), cap) == ({
            let (m, rs) = reasm_feed(st, segs.take(k - 1), cap);
            let (l, r) = reasm_step(m, segs[k - 1], cap);
            (l, rs.push(r))
        }),
{
    assert(segs.take(k as int).drop_last() =~= segs.take(k - 1));
    assert(segs.take(k as int).last() == segs[k - 1]);
}

/// Facts about segment `j` of a frame needed by the round trip.
proof fn lemma_segment_parts(frame: Seq<u8>, mtu: nat, msg_id: u8, j: nat)
    requires
        mtu > SEGMENT_HEADER_LEN,
        spec_segment_count(frame.len(), mtu) <= MAX_SEGMENTS,
        j < spec_segment_count(frame.len(), mtu),
    ensures
        ({
            let seg = spec_segment(frame, mtu, msg_id, j);
            let total = spec_segment_count(frame.len(), mtu);
            &&& seg.len() >= SEGMENT_HEADER_LEN
            &&& seg[0] == msg_id
            &&& flags_index(seg[1]) == j as u8
            &&& flags_last(seg[1]) == (j + 1 == total)
            &&& seg.skip(SEGMENT_HEADER_LEN as int) == frame.subrange(
                segment_start(frame.len(), mtu, j) as int,
                segment_end(frame.len(), mtu, j) as int,
            )
        }),
{
    let seg = spec_segment(frame, mtu, msg_id, j);
    lemma_segment_bounds(frame.len(), mtu, j);
    assert(seg.skip(SEGMENT_HEADER_LEN as int) =~= frame.subrange(
        segment_start(frame.len(), mtu, j) as int,
        segment_end(frame.len(), mtu, j) as int,
    ));
}

/// Prefix step of the round trip: after the first `k` segments of a frame the
/// message is in flight with the first `k` payload chunks collected.
proof fn lemma_feed_prefix(
    st: ReassemblerView,
    frame: Seq<u8>,
    mtu: nat,
    msg_id: u8,
    cap: nat,
    k: nat,
)
    requires
        view_inv(st),
        mtu > SEGMENT_HEADER_LEN,
        spec_segment_count(frame.len(), mtu) <= MAX_SEGMENTS,
        frame.len() <= cap,
        1 <= k < spec_segment_count(frame.len(), mtu),
    ensures
        ({
            let (s, rs) = reasm_feed(st, spec_segments(frame, mtu, msg_id).take(k as int), cap);
            &&& s.active
            &&& s.msg_id == msg_id
            &&& s.next_idx == k
            &&& s.data == frame.subrange(0, segment_start(frame.len(), mtu, k) as int)
            &&& rs == Seq::new(k, |i: int| Ok::<Option<Seq<u8>>, FragError>(None))
        }),
    decreases k,
{
    let segs = spec_segments(frame, mtu, msg_id);
    let j = (k - 1) as nat;
    lemma_segment_bounds(frame.len(), mtu, j);
    lemma_segment_parts(frame, mtu, msg_id, j);
    lemma_feed_unfold(st, segs, k, cap);
    let seg = spec_segment(frame, mtu, msg_id, j);
    assert(segs[j as int] == seg);
    let sa = segment_start(frame.len(), mtu, j);
    let ea = segment_end(frame.len(), mtu, j);
    assert(ea == segment_start(frame.len(), mtu, k)) by {
        assert((j + 1) * payload_cap(mtu) == j * payload_cap(mtu) + payload_cap(mtu))
            by (nonlinear_arith);
    }
    let (mid, rs0) = reasm_feed(st, segs.take(j as int), cap);
    if j == 0 {
        assert(segs.take(0) =~= Seq::<Seq<u8>>::empty());
        assert(reasm_feed(st, Seq::<Seq<u8>>::empty(), cap) == (st, Seq::<Result<Option<Seq<u8>>, FragError>>::empty()));
        assert(mid == st);
        assert(sa == 0) by (nonlinear_arith)
            requires
                sa == j * payload_cap(mtu),
                j == 0,
        ;
        assert(Seq::<u8>::empty() + frame.subrange(0, ea as int) =~= frame.subrange(0, ea as int));
    } else {
        lemma_feed_prefix(st, frame, mtu, msg_id, cap, j);
        assert(frame.subrange(0, sa as int) + frame.subrange(sa as int, ea as int)
            =~= frame.subrange(0, ea as int));
    }
    let (l, r) = reasm_step(mid, seg, cap);
    assert(r == Ok::<Option<Seq<u8>>, FragError>(None));
    assert(l.data == frame.subrange(0, ea as int));
    assert(rs0.push(r) =~= Seq::new(k, |i: int| Ok::<Option<Seq<u8>>, FragError>(None)));
}

/// Round trip: feeding the segments of a frame, in order, to a reassembler in
/// any reachable state yields `None` for every segment but the last, and the
/// whole frame on the last; afterwards no message is in flight. This holds for
/// every frame that fits the reassembler buffer and the 7-bit index space.
pub proof fn lemma_segments_reassemble(
    st: ReassemblerView,
    frame: Seq<u8>,
    mtu: nat,
    msg_id: u8,
    cap: nat,
)
    requires
        view_inv(st),
        mtu > SEGMENT_HEADER_LEN,
        spec_segment_count(frame.len(), mtu) <= MAX_SEGMENTS,
        frame.len() <= cap,
    ensures
        ({
            let (s, rs) = reasm_feed(st, spec_segments(frame, mtu, msg_id), cap);
            &&& !s.active
            &&& view_inv(s)
            &&& rs == completed_results(frame, spec_segment_count(frame.len(), mtu))
        }),
{
    let segs = spec_segments(frame, mtu, msg_id);
    let total = spec_segment_count(frame.len(), mtu);
    lemma_count_bounds(frame.len(), mtu);
    let j = (total - 1) as nat;
    lemma_segment_bounds(frame.len(), mtu, j);
    lemma_segment_parts(frame, mtu, msg_id, j);
    lemma_feed_unfold(st, segs, total, cap);
    assert(segs.take(total as int) =~= segs);
    let seg = spec_segment(frame, mtu, msg_id, j);
    assert(segs[j as int] == seg);
    let sa = segment_start(frame.len(), mtu, j);
    let ea = segment_end(frame.len(), mtu, j);
    let (mid, rs0) = reasm_feed(st, segs.take(j as int), cap);
    if j == 0 {
        assert(segs.take(0) =~= Seq::<Seq<u8>>::empty());
        assert(reasm_feed(st, Seq::<Seq<u8>>::empty(), cap) == (st, Seq::<Result<Option<Seq<u8>>, FragError>>::empty()));
        assert(mid == st);
        assert(sa == 0) by (nonlinear_arith)
            requires
                sa == j * payload_cap(mtu),
                j == 0,
        ;
        assert(Seq::<u8>::empty() + frame.subrange(0, ea as int) =~= frame);
    } else {
        lemma_feed_prefix(st, frame, mtu, msg_id, cap, j);
        assert(frame.subrange(0, sa as int) + frame.subrange(sa as int, ea as int) =~= frame);
    }
    let (l, r) = reasm_step(mid, seg, cap);
    assert(r == Ok::<Option<Seq<u8>>, FragError>(Some(frame)));
    assert(rs0.push(r) =~= completed_results(frame, total));
}

/// Every wire segment fits in one datagram of `mtu` bytes, and the segment
/// count is the one [`segment_count`] reports.
pub proof fn lemma_segments_fit_mtu(frame: Seq<u8>, mtu: nat, msg_id: u8)
    requires
        mtu > SEGMENT_HEADER_LEN,
    ensures
        spec_segments(frame, mtu, msg_id).len() == spec_segment_count(frame.len(), mtu),
        forall|i: int|
            0 <= i < spec_segments(frame, mtu, msg_id).len() ==> #[trigger] spec_segments(
                frame,
                mtu,
                msg_id,
            )[i].len() <= mtu,
{
    assert forall|i: int| 0 <= i < spec_segments(frame, mtu, msg_id).len() implies #[trigger] spec_segments(
        frame,
        mtu,
        msg_id,
    )[i].len() <= mtu by {
        lemma_segment_bounds(frame.len(), mtu, i as nat);
    }
}

/// Any error drops the in-flight message.
pub proof fn lemma_error_drops_message(st: ReassemblerView, segment: Seq<u8>, cap: nat)
    requires
        reasm_step(st, segment, cap).1 is Err,
    ensures
        !reasm_step(st, segment, cap).0.active,
{
}

/// Only an index-0 segment can start a message: a reassembler with no message
/// in flight rejects every other segment as out of order.
pub proof fn lemma_idle_needs_index_zero(st: ReassemblerView, segment: Seq<u8>, cap: nat)
    requires
        !st.active,
        segment.len() >= SEGMENT_HEADER_LEN,
        flags_index(segment[1]) != 0,
    ensures
        reasm_step(st, segment, cap).1 == Err::<Option<Seq<u8>>, FragError>(FragError::OutOfOrder),
{
}

/// Every push keeps the reassembler in a reachable state.
pub proof fn lemma_step_keeps_inv(st: ReassemblerView, segment: Seq<u8>, cap: nat)
    requires
        view_inv(st),
    ensures
        view_inv(reasm_step(st, segment, cap).0),
{
}

} // verus!
