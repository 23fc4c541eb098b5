//! USB CDC frame protocol of the board firmware.
//!
//! Request:  `[Cmd:1][Len:2 big-endian][Payload:Len]`
//! Response: `[Status:1][Len:2 big-endian][Payload:Len]`
//!
//! The decoder never panics, whatever bytes arrive. A completed frame or one
//! with an oversized length leaves it idle; after a frame with an unknown
//! command it skips bytes up to the next known command byte, so the next
//! complete frame is decoded. How the bytes are split into calls never
//! changes the first frame decoded.
use vstd::prelude::*;

verus! {

/// Maximum payload size (256 bytes).
pub const MAX_PAYLOAD_SIZE: usize = 256;

/// Command opcodes for the device-host protocol.
#[derive(Debug, Clone, Copy, PartialEq, Eq, Structural)]
pub enum Command {
    ImportToken,
    GetTokenInfo,
    GetBlinded,
    SendSignatures,
    GetProofs,
}

/// Wire byte of a command.
pub open spec fn command_byte(c: Command) -> u8 {
    match c {
        Command::ImportToken => 0x01,
        Command::GetTokenInfo => 0x02,
        Command::GetBlinded => 0x03,
        Command::SendSignatures => 0x04,
        Command::GetProofs => 0x05,
    }
}

/// Command named by a wire byte, if any.
pub open spec fn command_from_byte(byte: u8) -> Option<Command> {
    if byte == 0x01 {
        Some(Command::ImportToken)
    } else if byte == 0x02 {
        Some(Command::GetTokenInfo)
    } else if byte == 0x03 {
        Some(Command::GetBlinded)
    } else if byte == 0x04 {
        Some(Command::SendSignatures)
    } else if byte == 0x05 {
        Some(Command::GetProofs)
    } else {
        None
    }
}

impl Command {
    pub fn from_byte(byte: u8) -> (r: Option<Self>)
        ensures
            r == command_from_byte(byte),
    {
        match byte {
            0x01 => Some(Command::ImportToken),
            0x02 => Some(Command::GetTokenInfo),
            0x03 => Some(Command::GetBlinded),
            0x04 => Some(Command::SendSignatures),
            0x05 => Some(Command::GetProofs),
            _ => None,
        }
    }

    /// Wire byte of this command.
    pub fn to_byte(self) -> (b: u8)
        ensures
            b == command_byte(self),
    {
        match self {
            Command::ImportToken => 0x01,
            Command::GetTokenInfo => 0x02,
            Command::GetBlinded => 0x03,
            Command::SendSignatures => 0x04,
            Command::GetProofs => 0x05,
        }
    }
}

/// Every command's wire byte names that command again.
pub proof fn lemma_command_byte_roundtrip(c: Command)
    ensures
        command_from_byte(command_byte(c)) == Some(c),
{
}

/// Response status codes.
#[derive(Debug, Clone, Copy, PartialEq, Eq, Structural)]
pub enum Status {
    Success,
    Error,
    InvalidCommand,
    InvalidPayload,
    BufferOverflow,
    CryptoError,
}

/// Wire byte of a status.
pub open spec fn status_byte(s: Status) -> u8 {
    match s {
        Status::Success => 0x00,
        Status::Error => 0xFF,
        Status::InvalidCommand => 0x01,
        Status::InvalidPayload => 0x02,
        Status::BufferOverflow => 0x03,
        Status::CryptoError => 0x04,
    }
}

impl Status {
    pub fn to_byte(self) -> (b: u8)
        ensures
            b == status_byte(self),
    {
        match self {
            Status::Success => 0x00,
            Status::Error => 0xFF,
            Status::InvalidCommand => 0x01,
            Status::InvalidPayload => 0x02,
            Status::BufferOverflow => 0x03,
            Status::CryptoError => 0x04,
        }
    }
}

/// `MAX_PAYLOAD_SIZE` zero bytes.
pub open spec fn zero_payload() -> Seq<u8> {
    Seq::new(MAX_PAYLOAD_SIZE as nat, |i: int| 0u8)
}

/// Payload buffer holding `data` followed by zeros.
pub open spec fn padded(data: Seq<u8>) -> Seq<u8> {
    data + Seq::new((MAX_PAYLOAD_SIZE - data.len()) as nat, |i: int| 0u8)
}

/// Wire bytes `[first][len_hi][len_lo][payload[..len]]`.
pub open spec fn wire_bytes(first: u8, length: u16, payload: Seq<u8>) -> Seq<u8> {
    seq![first, (length / 256) as u8, (length % 256) as u8] + payload.take(length as int)
}

proof fn lemma_length_bytes(length: u16)
    ensures
        (length >> 8) as u8 == (length / 256) as u8,
        (length & 0xFF) as u8 == (length % 256) as u8,
{
    assert((length >> 8) as u8 == (length / 256) as u8) by (bit_vector);
    assert((length & 0xFF) as u8 == (length % 256) as u8) by (bit_vector);
}

/// Writes the 3-byte header and `payload[..length]` into `buf`.
fn write_wire(first: u8, length: u16, payload: &[u8; MAX_PAYLOAD_SIZE], buf: &mut [u8]) -> (n: usize)
    requires
        length <= MAX_PAYLOAD_SIZE,
    ensures
        old(buf)@.len() < 3 + length ==> n == 0 && final(buf)@ == old(buf)@,
        old(buf)@.len() >= 3 + length ==> n == 3 + length && final(buf)@ == wire_bytes(
            first,
            length,
            payload@,
        ) + old(buf)@.skip(n as int),
{
    let total_len = 3 + length as usize;
    if buf.len() < total_len {
        return 0;
    }
    proof {
        lemma_length_bytes(length);
    }
    let ghost orig = buf@;
    buf[0] = first;
    buf[1] = (length >> 8) as u8;
    buf[2] = (length & 0xFF) as u8;
    let mut i: usize = 0;
    while i < length as usize
        invariant
            total_len == 3 + length,
            length <= MAX_PAYLOAD_SIZE,
            buf@.len() == orig.len(),
            orig.len() >= total_len,
            i <= length,
            buf@.take(3) == seq![first, (length / 256) as u8, (length % 256) as u8],
            buf@.subrange(3, 3 + i) == payload@.take(i as int),
            buf@.skip(total_len as int) == orig.skip(total_len as int),
        decreases length - i,
    {
        buf[3 + i] = payload[i];
        assert(buf@.subrange(3, 3 + i + 1) =~= payload@.take(i + 1));
        i = i + 1;
    }
    assert(buf@ =~= wire_bytes(first, length, payload@) + orig.skip(total_len as int)) by {
        assert(buf@ =~= buf@.take(3) + buf@.subrange(3, total_len as int) + buf@.skip(
            total_len as int,
        ));
    }
    total_len
}

/// Abstract frame: command, declared length and the full payload buffer.
pub struct FrameView {
    pub command: Command,
    pub length: u16,
    pub payload: Seq<u8>,
}

/// The frame `with_payload` builds from `data`.
pub open spec fn frame_with(command: Command, data: Seq<u8>) -> FrameView {
    FrameView { command, length: data.len() as u16, payload: padded(data) }
}

/// Protocol frame structure for requests.
#[derive(Debug, Clone)]
pub struct Frame {
    pub command: Command,
    pub length: u16,
    pub payload: [u8; MAX_PAYLOAD_SIZE],
}

impl View for Frame {
    type V = FrameView;

    open spec fn view(&self) -> FrameView {
        FrameView { command: self.command, length: self.length, payload: self.payload@ }
    }
}

/// Copies `data` into a zeroed payload buffer.
fn padded_buffer(data: &[u8]) -> (buf: [u8; MAX_PAYLOAD_SIZE])
    requires
        data@.len() <= MAX_PAYLOAD_SIZE,
    ensures
        buf@ == padded(data@),
{
    let mut buf = [0u8; MAX_PAYLOAD_SIZE];
    let mut i: usize = 0;
    while i < data.len()
        invariant
            data@.len() <= MAX_PAYLOAD_SIZE,
            i <= data@.len(),
            buf@.len() == MAX_PAYLOAD_SIZE,
            buf@.take(i as int) == data@.take(i as int),
            forall|j: int| i <= j < MAX_PAYLOAD_SIZE ==> buf@[j] == 0u8,
        decreases data@.len() - i,
    {
        buf[i] = data[i];
        assert(buf@.take(i + 1) =~= data@.take(i + 1));
        i = i + 1;
    }
    assert(buf@ =~= padded(data@)) by {
        assert(data@.take(i as int) =~= data@);
    }
    buf
}

impl Frame {
    /// Creates an empty frame with the given command.
    pub fn new(command: Command) -> (f: Self)
        ensures
            f@ == (FrameView { command, length: 0, payload: zero_payload() }),
    {
        let f = Self { command, length: 0, payload: [0; MAX_PAYLOAD_SIZE] };
        assert(f.payload@ =~= zero_payload());
        f
    }

    /// Creates a frame carrying `data`; `None` if it exceeds `MAX_PAYLOAD_SIZE`.
    pub fn with_payload(command: Command, data: &[u8]) -> (r: Option<Self>)
        ensures
            data@.len() > MAX_PAYLOAD_SIZE ==> r is None,
            data@.len() <= MAX_PAYLOAD_SIZE ==> (r matches Some(f) && f@ == frame_with(command, data@)),
    {
        if data.len() > MAX_PAYLOAD_SIZE {
            return None;
        }
        let payload = padded_buffer(data);
        Some(Self { command, length: data.len() as u16, payload })
    }

    /// The payload bytes `payload[..length]`.
    pub fn payload(&self) -> (s: &[u8])
        requires
            self.length <= MAX_PAYLOAD_SIZE,
        ensures
            s@ == self.payload@.take(self.length as int),
    {
        &self.payload[0..self.length as usize]
    }

    /// Encodes this frame into `buf` as `[Cmd:1][Len:2][Payload:N]`.
    /// Returns the number of bytes written, or 0 when `buf` is too small
    /// (and then leaves `buf` untouched).
    pub fn encode(&self, buf: &mut [u8]) -> (n: usize)
        requires
            self.length <= MAX_PAYLOAD_SIZE,
        ensures
            old(buf)@.len() < 3 + self.length ==> n == 0 && final(buf)@ == old(buf)@,
            old(buf)@.len() >= 3 + self.length ==> n == 3 + self.length && final(buf)@
                == wire_bytes(command_byte(self.command), self.length, self.payload@) + old(
                buf,
            )@.skip(n as int),
    {
        write_wire(self.command.to_byte(), self.length, &self.payload, buf)
    }

    /// Number of bytes [`Frame::encode`] writes.
    pub fn encoded_size(&self) -> (n: usize)
        ensures
            n == 3 + self.length,
    {
        3 + self.length as usize
    }
}

/// Response frame structure.
#[derive(Debug, Clone)]
pub struct Response {
    pub status: Status,
    pub length: u16,
    pub payload: [u8; MAX_PAYLOAD_SIZE],
}

impl Response {
    /// Creates a response with just a status (no payload).
    pub fn new(status: Status) -> (r: Self)
        ensures
            r.status == status,
            r.length == 0,
            r.payload@ == zero_payload(),
    {
        let r = Self { status, length: 0, payload: [0; MAX_PAYLOAD_SIZE] };
        assert(r.payload@ =~= zero_payload());
        r
    }

    /// Creates a response carrying `data`; `None` if it exceeds `MAX_PAYLOAD_SIZE`.
    pub fn with_payload(status: Status, data: &[u8]) -> (r: Option<Self>)
        ensures
            data@.len() > MAX_PAYLOAD_SIZE ==> r is None,
            data@.len() <= MAX_PAYLOAD_SIZE ==> (r matches Some(resp) && resp.status == status
                && resp.length == data@.len() && resp.payload@ == padded(data@)),
    {
        if data.len() > MAX_PAYLOAD_SIZE {
            return None;
        }
        let payload = padded_buffer(data);
        Some(Self { status, length: data.len() as u16, payload })
    }

    /// The payload bytes `payload[..length]`.
    pub fn payload(&self) -> (s: &[u8])
        requires
            self.length <= MAX_PAYLOAD_SIZE,
        ensures
            s@ == self.payload@.take(self.length as int),
    {
        &self.payload[0..self.length as usize]
    }

    /// Encodes this response into `buf` as `[Status:1][Len:2][Payload:N]`.
    /// Returns the number of bytes written, or 0 when `buf` is too small.
    pub fn encode(&self, buf: &mut [u8]) -> (n: usize)
        requires
            self.length <= MAX_PAYLOAD_SIZE,
        ensures
            old(buf)@.len() < 3 + self.length ==> n == 0 && final(buf)@ == old(buf)@,
            old(buf)@.len() >= 3 + self.length ==> n == 3 + self.length && final(buf)@
                == wire_bytes(status_byte(self.status), self.length, self.payload@) + old(
                buf,
            )@.skip(n as int),
    {
        write_wire(self.status.to_byte(), self.length, &self.payload, buf)
    }

    /// Number of bytes [`Response::encode`] writes.
    pub fn encoded_size(&self) -> (n: usize)
        ensures
            n == 3 + self.length,
    {
        3 + self.length as usize
    }
}

// ---------------------------------------------------------------------------
// Decoder
// ---------------------------------------------------------------------------

/// Frame decoder states.
#[derive(Debug, Clone, Copy, PartialEq, Eq, Structural)]
pub enum DecodeState {
    /// Waiting for the command byte.
    Idle,
    /// Got the command, waiting for the length high byte.
    LenHigh,
    /// Got the length high byte, waiting for the low byte.
    LenLow,
    /// Receiving payload bytes.
    Payload,
    /// Skipping bytes after a frame with an unknown command, up to the next
    /// known command byte.
    Resync,
}

/// Abstract decoder state.
pub struct DecoderView {
    pub state: DecodeState,
    pub command_byte: u8,
    pub length: u16,
    pub payload_idx: nat,
    pub payload: Seq<u8>,
}

/// States the decoder can be in.
pub open spec fn decoder_inv(d: DecoderView) -> bool {
    &&& d.payload.len() == MAX_PAYLOAD_SIZE
    &&& d.state == DecodeState::LenLow ==> d.length % 256 == 0
    &&& d.state == DecodeState::Payload ==> 0 < d.length <= MAX_PAYLOAD_SIZE && d.payload_idx
        < d.length
}

/// A fresh decoder: idle, header cleared, payload buffer zeroed.
pub open spec fn initial_decoder() -> DecoderView {
    DecoderView {
        state: DecodeState::Idle,
        command_byte: 0,
        length: 0,
        payload_idx: 0,
        payload: zero_payload(),
    }
}

/// The state `reset` leaves: idle, header cleared, payload buffer kept.
pub open spec fn reset_view(d: DecoderView) -> DecoderView {
    DecoderView { state: DecodeState::Idle, command_byte: 0, length: 0, payload_idx: 0, ..d }
}

/// The state after a frame with an unknown command: resyncing, header
/// cleared, payload buffer kept.
pub open spec fn resync_view(d: DecoderView) -> DecoderView {
    DecoderView { state: DecodeState::Resync, ..reset_view(d) }
}

/// What one byte does: keep going, or stop with a result.
pub enum DecodeStep {
    Continue(DecoderView),
    Done(DecoderView, Option<FrameView>),
}

/// Effect of one incoming byte.
pub open spec fn decode_step(d: DecoderView, byte: u8) -> DecodeStep {
    match d.state {
        DecodeState::Resync => match command_from_byte(byte) {
            Some(_) => DecodeStep::Continue(
                DecoderView { command_byte: byte, state: DecodeState::LenHigh, ..d },
            ),
            None => DecodeStep::Continue(d),
        },
        DecodeState::Idle => DecodeStep::Continue(
            DecoderView { command_byte: byte, state: DecodeState::LenHigh, ..d },
        ),
        DecodeState::LenHigh => DecodeStep::Continue(
            DecoderView { length: (byte * 256) as u16, state: DecodeState::LenLow, ..d },
        ),
        DecodeState::LenLow => {
            let length = (d.length + byte) as u16;
            if length > MAX_PAYLOAD_SIZE {
                DecodeStep::Done(reset_view(d), None)
            } else if length == 0 {
                match command_from_byte(d.command_byte) {
                    Some(c) => DecodeStep::Done(
                        reset_view(d),
                        Some(FrameView { command: c, length: 0, payload: zero_payload() }),
                    ),
                    None => DecodeStep::Done(resync_view(d), None),
                }
            } else {
                DecodeStep::Continue(
                    DecoderView { length, payload_idx: 0, state: DecodeState::Payload, ..d },
                )
            }
        },
        DecodeState::Payload => {
            let payload = d.payload.update(d.payload_idx as int, byte);
            let idx = d.payload_idx + 1;
            if idx >= d.length {
                match command_from_byte(d.command_byte) {
                    Some(c) => DecodeStep::Done(
                        DecoderView { payload, ..reset_view(d) },
                        Some(frame_with(c, payload.take(idx as int))),
                    ),
                    None => DecodeStep::Done(DecoderView { payload, ..resync_view(d) }, None),
                }
            } else {
                DecodeStep::Continue(DecoderView { payload, payload_idx: idx, ..d })
            }
        },
    }
}

/// Feeds `data` byte by byte until a frame completes: the state afterwards
/// and the frame, if any. A rejected frame (oversized length, unknown
/// command) is dropped and decoding goes on with the next byte; bytes after
/// a completed frame are not consumed.
pub open spec fn decode_run(d: DecoderView, data: Seq<u8>) -> (DecoderView, Option<FrameView>)
    decreases data.len(),
{
    if data.len() == 0 {
        (d, None)
    } else {
        match decode_step(d, data[0]) {
            DecodeStep::Continue(next) => decode_run(next, data.drop_first()),
            DecodeStep::Done(next, Some(f)) => (next, Some(f)),
            DecodeStep::Done(next, None) => decode_run(next, data.drop_first()),
        }
    }
}

/// A decoded frame taken by its view.
pub open spec fn frame_opt_view(r: Option<Frame>) -> Option<FrameView> {
    match r {
        Some(f) => Some(f@),
        None => None,
    }
}

/// Frame decoder with buffering for incomplete frames.
#[derive(Debug)]
pub struct FrameDecoder {
    state: DecodeState,
    command_byte: u8,
    length: u16,
    payload_idx: usize,
    payload: [u8; MAX_PAYLOAD_SIZE],
}

impl View for FrameDecoder {
    type V = DecoderView;

    closed spec fn view(&self) -> DecoderView {
        DecoderView {
            state: self.state,
            command_byte: self.command_byte,
            length: self.length,
            payload_idx: self.payload_idx as nat,
            payload: self.payload@,
        }
    }
}

impl FrameDecoder {
    /// Well-formedness of the decoder state.
    pub open spec fn inv(&self) -> bool {
        decoder_inv(self@)
    }

    /// Creates an idle decoder with a zeroed header and payload buffer.
    pub fn new() -> (d: Self)
        ensures
            d.inv(),
            d@ == initial_decoder(),
    {
        let d = Self {
            state: DecodeState::Idle,
            command_byte: 0,
            length: 0,
            payload_idx: 0,
            payload: [0; MAX_PAYLOAD_SIZE],
        };
        assert(d.payload@ =~= zero_payload());
        d
    }

    /// Returns to the idle state; the payload buffer is kept.
    pub fn reset(&mut self)
        ensures
            final(self).inv(),
            final(self)@ == reset_view(old(self)@),
    {
        self.state = DecodeState::Idle;
        self.command_byte = 0;
        self.length = 0;
        self.payload_idx = 0;
    }

    /// Processes incoming bytes; returns a frame as soon as one completes.
    ///
    /// Returns `Some(Frame)` when a complete frame has been received and
    /// `None` if more bytes are needed. A frame with an oversized length is
    /// dropped; a frame with an unknown command byte is dropped together with
    /// the bytes after it up to the next known command byte. Decoding goes on
    /// after a dropped frame, so how the bytes are split into calls never
    /// changes the first frame, and stops at the first completed frame.
    pub fn decode(&mut self, data: &[u8]) -> (r: Option<Frame>)
        requires
            old(self).inv(),
        ensures
            final(self).inv(),
            (final(self)@, frame_opt_view(r)) == decode_run(old(self)@, data@),
    {
        let ghost start = self@;
        assert(data@.skip(0) =~= data@);
        let mut i: usize = 0;
        while i < data.len()
            invariant
                self.inv(),
                start == old(self)@,
                i <= data@.len(),
                decode_run(start, data@) == decode_run(self@, data@.skip(i as int)),
            decreases data@.len() - i,
        {
            let byte = data[i];
            let ghost rest = data@.skip(i as int);
            let ghost pre = self@;
            assert(rest[0] == byte);
            assert(rest.drop_first() =~= data@.skip(i + 1));
            match self.state {
                DecodeState::Resync => {
                    if Command::from_byte(byte).is_some() {
                        self.command_byte = byte;
                        self.state = DecodeState::LenHigh;
                    }
                },
                DecodeState::Idle => {
                    self.command_byte = byte;
                    self.state = DecodeState::LenHigh;
                },
                DecodeState::LenHigh => {
                    assert((byte as u16) << 8 == (byte * 256) as u16) by (bit_vector);
                    self.length = (byte as u16) << 8;
                    self.state = DecodeState::LenLow;
                },
                DecodeState::LenLow => {
                    let hi = self.length;
                    assert(hi | (byte as u16) == (hi + byte) as u16) by (bit_vector)
                        requires
                            hi % 256 == 0,
                    ;
                    self.length = self.length | (byte as u16);
                    if self.length as usize > MAX_PAYLOAD_SIZE {
                        self.reset();
                    } else if self.length == 0 {
                        let cmd_byte = self.command_byte;
                        self.reset();
                        if let Some(cmd) = Command::from_byte(cmd_byte) {
                            return Some(Frame::new(cmd));
                        }
                        self.state = DecodeState::Resync;
                    } else {
                        self.payload_idx = 0;
                        self.state = DecodeState::Payload;
                    }
                },
                DecodeState::Payload => {
                    self.payload[self.payload_idx] = byte;
                    self.payload_idx = self.payload_idx + 1;
                    if self.payload_idx >= self.length as usize {
                        let cmd_byte = self.command_byte;
                        let len = self.payload_idx;
                        self.reset();
                        if let Some(cmd) = Command::from_byte(cmd_byte) {
                            return Frame::with_payload(cmd, &self.payload[0..len]);
                        }
                        self.state = DecodeState::Resync;
                    }
                },
            }
            i = i + 1;
        }
        assert(data@.skip(i as int) =~= Seq::<u8>::empty());
        None
    }
}

impl Default for FrameDecoder {
    fn default() -> (d: Self)
        ensures
            d.inv(),
            d@ == initial_decoder(),
    {
        Self::new()
    }
}

// ---------------------------------------------------------------------------
// Laws
// ---------------------------------------------------------------------------

/// A completed frame leaves the decoder idle, and a rejected one leaves it
/// idle or skipping to the next command byte, so a malformed frame never
/// wedges it.
pub proof fn lemma_done_leaves_idle(d: DecoderView, byte: u8)
    ensures
        decode_step(d, byte) matches DecodeStep::Done(next, Some(_)) ==> next.state
            == DecodeState::Idle,
        decode_step(d, byte) matches DecodeStep::Done(next, None) ==> next.state
            == DecodeState::Idle || next.state == DecodeState::Resync,
{
}

/// Each step keeps the decoder well formed.
pub proof fn lemma_step_keeps_inv(d: DecoderView, byte: u8)
    requires
        decoder_inv(d),
    ensures
        match decode_step(d, byte) {
            DecodeStep::Continue(next) => decoder_inv(next),
            DecodeStep::Done(next, _) => decoder_inv(next),
        },
{
    assert(((byte * 256) as u16) % 256 == 0) by (nonlinear_arith);
}

/// Every status goes on the wire as its documented code (success 0x00,
/// error 0xFF, invalid command 0x01, invalid payload 0x02, buffer overflow
/// 0x03, crypto error 0x04), so no two statuses share a byte.
pub proof fn lemma_status_wire_codes()
    ensures
        status_byte(Status::Success) == 0x00u8,
        status_byte(Status::Error) == 0xFFu8,
        status_byte(Status::InvalidCommand) == 0x01u8,
        status_byte(Status::InvalidPayload) == 0x02u8,
        status_byte(Status::BufferOverflow) == 0x03u8,
        status_byte(Status::CryptoError) == 0x04u8,
        forall|a: Status, b: Status|
            #[trigger] status_byte(a) == #[trigger] status_byte(b) ==> a == b,
{
    assert forall|a: Status, b: Status| #[trigger] status_byte(a) == #[trigger] status_byte(b) implies a
        == b by {
        match a {
            Status::Success => assert(b == Status::Success) by { match b { Status::Success => {}, Status::Error => {}, Status::InvalidCommand => {}, Status::InvalidPayload => {}, Status::BufferOverflow => {}, Status::CryptoError => {}, } },
            Status::Error => assert(b == Status::Error) by { match b { Status::Success => {}, Status::Error => {}, Status::InvalidCommand => {}, Status::InvalidPayload => {}, Status::BufferOverflow => {}, Status::CryptoError => {}, } },
            Status::InvalidCommand => assert(b == Status::InvalidCommand) by { match b { Status::Success => {}, Status::Error => {}, Status::InvalidCommand => {}, Status::InvalidPayload => {}, Status::BufferOverflow => {}, Status::CryptoError => {}, } },
            Status::InvalidPayload => assert(b == Status::InvalidPayload) by { match b { Status::Success => {}, Status::Error => {}, Status::InvalidCommand => {}, Status::InvalidPayload => {}, Status::BufferOverflow => {}, Status::CryptoError => {}, } },
            Status::BufferOverflow => assert(b == Status::BufferOverflow) by { match b { Status::Success => {}, Status::Error => {}, Status::InvalidCommand => {}, Status::InvalidPayload => {}, Status::BufferOverflow => {}, Status::CryptoError => {}, } },
            Status::CryptoError => assert(b == Status::CryptoError) by { match b { Status::Success => {}, Status::Error => {}, Status::InvalidCommand => {}, Status::InvalidPayload => {}, Status::BufferOverflow => {}, Status::CryptoError => {}, } },
        }
    }
}

/// Every command goes on the wire as its documented code (import token
/// 0x01, token info 0x02, blinded outputs 0x03, signatures 0x04, proofs
/// 0x05), and the byte names the command again.
pub proof fn lemma_command_wire_codes()
    ensures
        command_byte(Command::ImportToken) == 0x01u8,
        command_byte(Command::GetTokenInfo) == 0x02u8,
        command_byte(Command::GetBlinded) == 0x03u8,
        command_byte(Command::SendSignatures) == 0x04u8,
        command_byte(Command::GetProofs) == 0x05u8,
        forall|c: Command| command_from_byte(#[trigger] command_byte(c)) == Some(c),
        forall|b: u8| #[trigger] command_from_byte(b) matches Some(c) ==> command_byte(c) == b,
{
}

/// Chunking never changes the first frame: decoding `a` and then `b` in two
/// calls (the second only when the first gave nothing) ends exactly as
/// decoding `a + b` in one call. Byte-by-byte feeding is this law applied
/// one byte at a time.
pub proof fn lemma_decode_chunking(d: DecoderView, a: Seq<u8>, b: Seq<u8>)
    ensures
        decode_run(d, a + b) == (match decode_run(d, a) {
            (d1, Some(f)) => (d1, Some(f)),
            (d1, None) => decode_run(d1, b),
        }),
    decreases a.len(),
{
    if a.len() == 0 {
        assert(a + b =~= b);
    } else {
        assert((a + b)[0] == a[0]);
        assert((a + b).drop_first() =~= a.drop_first() + b);
        match decode_step(d, a[0]) {
            DecodeStep::Continue(next) => lemma_decode_chunking(next, a.drop_first(), b),
            DecodeStep::Done(next, Some(f)) => {},
            DecodeStep::Done(next, None) => lemma_decode_chunking(next, a.drop_first(), b),
        }
    }
}

/// Feeding `data` one byte per call until a call returns a frame: the state
/// afterwards and that frame, if any.
pub open spec fn decode_per_byte(d: DecoderView, data: Seq<u8>) -> (DecoderView, Option<FrameView>)
    decreases data.len(),
{
    if data.len() == 0 {
        (d, None)
    } else {
        match decode_run(d, data.take(1)) {
            (d1, Some(f)) => (d1, Some(f)),
            (d1, None) => decode_per_byte(d1, data.skip(1)),
        }
    }
}

/// Feeding the bytes one per call ends exactly as feeding them in one call.
pub proof fn lemma_decode_per_byte(d: DecoderView, data: Seq<u8>)
    ensures
        decode_per_byte(d, data) == decode_run(d, data),
    decreases data.len(),
{
    if data.len() > 0 {
        assert(data =~= data.take(1) + data.skip(1));
        lemma_decode_chunking(d, data.take(1), data.skip(1));
        let r = decode_run(d, data.take(1));
        if r.1 is None {
            lemma_decode_per_byte(r.0, data.skip(1));
        }
    }
}

/// Payload phase of the round trip: with `k` payload bytes already stored,
/// feeding the remaining ones (and anything after them) completes the frame.
proof fn lemma_decode_payload(d: DecoderView, f: FrameView, k: nat, rest: Seq<u8>)
    requires
        decoder_inv(d),
        d.state == DecodeState::Payload,
        d.command_byte == command_byte(f.command),
        d.length == f.length,
        d.payload_idx == k,
        k < f.length <= MAX_PAYLOAD_SIZE,
        f.payload.len() == MAX_PAYLOAD_SIZE,
        d.payload.take(k as int) == f.payload.take(k as int),
    ensures
        decode_run(d, f.payload.subrange(k as int, f.length as int) + rest).1 == Some(
            frame_with(f.command, f.payload.take(f.length as int)),
        ),
        decode_run(d, f.payload.subrange(k as int, f.length as int) + rest).0.state
            == DecodeState::Idle,
    decreases f.length - k,
{
    let data = f.payload.subrange(k as int, f.length as int) + rest;
    let byte = f.payload[k as int];
    assert(data[0] == byte);
    let payload = d.payload.update(k as int, byte);
    assert(payload.take(k + 1int) =~= f.payload.take(k + 1int));
    lemma_command_byte_roundtrip(f.command);
    if k + 1 < f.length {
        let next = DecoderView { payload, payload_idx: k + 1, ..d };
        assert(data.drop_first() =~= f.payload.subrange(k + 1int, f.length as int) + rest);
        lemma_decode_payload(next, f, k + 1, rest);
    }
}

/// Round trip: an idle decoder fed the wire bytes of a frame (followed by
/// anything at all) returns that frame's command, length and payload, and is
/// idle afterwards.
pub proof fn lemma_decode_encoded(d: DecoderView, f: FrameView, rest: Seq<u8>)
    requires
        decoder_inv(d),
        d.state == DecodeState::Idle,
        f.length <= MAX_PAYLOAD_SIZE,
        f.payload.len() == MAX_PAYLOAD_SIZE,
    ensures
        decode_run(d, wire_bytes(command_byte(f.command), f.length, f.payload) + rest).1 == Some(
            frame_with(f.command, f.payload.take(f.length as int)),
        ),
        decode_run(d, wire_bytes(command_byte(f.command), f.length, f.payload) + rest).0.state
            == DecodeState::Idle,
{
    let data = wire_bytes(command_byte(f.command), f.length, f.payload) + rest;
    let hi = (f.length / 256) as u8;
    let lo = (f.length % 256) as u8;
    lemma_command_byte_roundtrip(f.command);
    let d1 = DecoderView { command_byte: command_byte(f.command), state: DecodeState::LenHigh, ..d };
    let d2 = DecoderView { length: (hi * 256) as u16, state: DecodeState::LenLow, ..d1 };
    assert(data[0] == command_byte(f.command));
    assert(data.drop_first()[0] == hi);
    assert(data.drop_first().drop_first()[0] == lo);
    assert(((hi * 256) as u16 + lo) as u16 == f.length);
    let tail = data.drop_first().drop_first().drop_first();
    assert(tail =~= f.payload.subrange(0, f.length as int) + rest);
    assert(decode_run(d, data) == decode_run(d1, data.drop_first()));
    assert(decode_run(d1, data.drop_first()) == decode_run(d2, data.drop_first().drop_first()));
    if f.length == 0 {
        assert(f.payload.take(0) =~= Seq::<u8>::empty());
        assert(padded(Seq::<u8>::empty()) =~= zero_payload());
    } else {
        let d3 = DecoderView { length: f.length, payload_idx: 0, state: DecodeState::Payload, ..d2 };
        assert(decode_run(d2, data.drop_first().drop_first()) == decode_run(d3, tail));
        assert(d3.payload.take(0) =~= f.payload.take(0));
        lemma_decode_payload(d3, f, 0, rest);
    }
}

} // verus!
