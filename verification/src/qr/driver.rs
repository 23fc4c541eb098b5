//! GM65/M3Y QR scanner driver over a UART.
//!
//! Command format: `7E 00 [type:1] [len:1] [addr_hi] [addr_lo] [value:N] AB CD`
//! (the scanner accepts `AB CD` in place of a checksum).
//! Response format: `02 00 00 01 [value_byte] 33 31` (7 bytes for get_setting).
use vstd::prelude::*;

verus! {

pub const MAX_SCAN_SIZE: usize = 2048;

/// Length of a scanner reply to a settings command.
pub const GM65_SUCCESS_LEN: usize = 7;

const SERIAL_ADDR: [u8; 2] = [0x00, 0x0D];
const SETTINGS_ADDR: [u8; 2] = [0x00, 0x00];
const BAUD_RATE_ADDR: [u8; 2] = [0x00, 0x2A];
const BAUD_RATE_115200: [u8; 2] = [0x1A, 0x00];
const SCAN_ADDR: [u8; 2] = [0x00, 0x02];
const TIMEOUT_ADDR: [u8; 2] = [0x00, 0x06];
const SCAN_INTERVAL_ADDR: [u8; 2] = [0x00, 0x05];
const SAME_BARCODE_DELAY_ADDR: [u8; 2] = [0x00, 0x13];
const VERSION_ADDR: [u8; 2] = [0x00, 0xE2];
const VERSION_NEEDS_RAW: u8 = 0x69;
const RAW_MODE_ADDR: [u8; 2] = [0x00, 0xBC];
const RAW_MODE_VALUE: u8 = 0x08;
const BAR_TYPE_ADDR: [u8; 2] = [0x00, 0x2C];
const QR_ADDR: [u8; 2] = [0x00, 0x3F];

const SCAN_INTERVAL_MS: u8 = 0x01;
const SAME_BARCODE_DELAY: u8 = 0x85;

/// Scanner hardware models.
#[derive(Debug, Clone, Copy, PartialEq, Eq, Structural)]
pub enum ScannerModel {
    Gm65,
    M3Y,
    Generic,
    Unknown,
}

impl ScannerModel {
    /// Display name of the model.
    pub fn to_string(&self) -> (s: String)
        ensures
            s@ == match *self {
                ScannerModel::Gm65 => "GM65"@,
                ScannerModel::M3Y => "M3Y"@,
                ScannerModel::Generic => "Generic"@,
                ScannerModel::Unknown => "Unknown"@,
            },
    {
        match self {
            ScannerModel::Gm65 => String::from_str("GM65"),
            ScannerModel::M3Y => String::from_str("M3Y"),
            ScannerModel::Generic => String::from_str("Generic"),
            ScannerModel::Unknown => String::from_str("Unknown"),
        }
    }
}

/// Scanner driver errors.
#[derive(Debug, Clone, Copy, PartialEq, Eq, Structural)]
pub enum ScannerError {
    NotDetected,
    Timeout,
    InvalidResponse,
    BufferOverflow,
    ConfigFailed,
    NotInitialized,
    UartError,
}

impl ScannerError {
    /// Human-readable description of the error.
    pub fn to_string(&self) -> (s: String)
        ensures
            s@ == match *self {
                ScannerError::NotDetected => "Scanner not detected"@,
                ScannerError::Timeout => "Communication timeout"@,
                ScannerError::InvalidResponse => "Invalid response"@,
                ScannerError::BufferOverflow => "Buffer overflow"@,
                ScannerError::ConfigFailed => "Configuration failed"@,
                ScannerError::NotInitialized => "Not initialized"@,
                ScannerError::UartError => "UART error"@,
            },
    {
        match self {
            ScannerError::NotDetected => String::from_str("Scanner not detected"),
            ScannerError::Timeout => String::from_str("Communication timeout"),
            ScannerError::InvalidResponse => String::from_str("Invalid response"),
            ScannerError::BufferOverflow => String::from_str("Buffer overflow"),
            ScannerError::ConfigFailed => String::from_str("Configuration failed"),
            ScannerError::NotInitialized => String::from_str("Not initialized"),
            ScannerError::UartError => String::from_str("UART error"),
        }
    }
}

#[derive(Debug, Clone, Copy, PartialEq, Eq, Structural)]
pub enum ScanMode {
    Continuous,
    CommandTriggered,
    HardwareTriggered,
}

#[derive(Debug, Clone, Copy, PartialEq, Eq, Structural)]
pub struct ScannerConfig {
    pub model: ScannerModel,
    pub baud_rate: u32,
    pub mode: ScanMode,
    pub raw_mode: bool,
}

/// Configuration a scanner starts from: unknown model at 9600 bps,
/// command-triggered, RAW mode on.
pub open spec fn default_config() -> ScannerConfig {
    ScannerConfig {
        model: ScannerModel::Unknown,
        baud_rate: 9600,
        mode: ScanMode::CommandTriggered,
        raw_mode: true,
    }
}

impl Default for ScannerConfig {
    fn default() -> (c: Self)
        ensures
            c == default_config(),
    {
        Self {
            model: ScannerModel::Unknown,
            baud_rate: 9600,
            mode: ScanMode::CommandTriggered,
            raw_mode: true,
        }
    }
}

#[derive(Debug, Clone, Copy, PartialEq, Eq, Structural)]
pub struct ScannerStatus {
    pub model: ScannerModel,
    pub connected: bool,
    pub initialized: bool,
    pub config: ScannerConfig,
    pub last_scan_len: Option<usize>,
}

/// Whether a byte sequence ends in a line terminator (`\r`, `\n`).
pub open spec fn ends_with_eol(data: Seq<u8>) -> bool {
    data.len() > 0 && (data.last() == 0x0Du8 || data.last() == 0x0Au8)
}

/// `data` without one trailing `\n` and then one trailing `\r`.
pub open spec fn strip_eol(data: Seq<u8>) -> Seq<u8> {
    let a = if data.len() > 0 && data.last() == 0x0Au8 {
        data.drop_last()
    } else {
        data
    };
    if a.len() > 0 && a.last() == 0x0Du8 {
        a.drop_last()
    } else {
        a
    }
}

/// Fixed-capacity buffer for one scan.
pub struct ScanBuffer {
    data: [u8; MAX_SCAN_SIZE],
    len: usize,
}

impl View for ScanBuffer {
    type V = Seq<u8>;

    closed spec fn view(&self) -> Seq<u8> {
        self.data@.take(self.len as int)
    }
}

impl ScanBuffer {
    /// The length fits the capacity.
    #[verifier::type_invariant]
    spec fn inv(&self) -> bool {
        self.len <= MAX_SCAN_SIZE
    }

    /// Contents never exceed the capacity.
    pub fn len_bound(&self)
        ensures
            self@.len() <= MAX_SCAN_SIZE,
    {
        proof {
            use_type_invariant(self);
        }
    }

    pub fn new() -> (b: Self)
        ensures
            b@ == Seq::<u8>::empty(),
    {
        let b = Self { data: [0u8; MAX_SCAN_SIZE], len: 0 };
        assert(b@ =~= Seq::<u8>::empty());
        b
    }

    pub fn clear(&mut self)
        ensures
            final(self)@ == Seq::<u8>::empty(),
    {
        self.len = 0;
        assert(self@ =~= Seq::<u8>::empty());
    }

    /// Appends a byte; `false` (and no change) when the buffer is full.
    pub fn push(&mut self, byte: u8) -> (ok: bool)
        ensures
            ok == (old(self)@.len() < MAX_SCAN_SIZE),
            ok ==> final(self)@ == old(self)@.push(byte),
            !ok ==> final(self)@ == old(self)@,
    {
        proof {
            use_type_invariant(&*self);
        }
        if self.len >= MAX_SCAN_SIZE {
            return false;
        }
        let ghost before = self@;
        self.data[self.len] = byte;
        self.len = self.len + 1;
        assert(self@ =~= before.push(byte));
        true
    }

    pub fn as_slice(&self) -> (s: &[u8])
        ensures
            s@ == self@,
    {
        proof {
            use_type_invariant(self);
        }
        &self.data[0..self.len]
    }

    pub fn len(&self) -> (n: usize)
        ensures
            n == self@.len(),
    {
        proof {
            use_type_invariant(self);
        }
        self.len
    }

    pub fn is_empty(&self) -> (b: bool)
        ensures
            b == (self@.len() == 0),
    {
        proof {
            use_type_invariant(self);
        }
        self.len == 0
    }

    /// Whether the buffered data ends in a line terminator.
    pub fn has_eol(&self) -> (b: bool)
        ensures
            b == ends_with_eol(self@),
    {
        proof {
            use_type_invariant(self);
        }
        if self.len == 0 {
            return false;
        }
        if self.len >= 2 && self.data[self.len - 2] == 0x0D && self.data[self.len - 1] == 0x0A {
            return true;
        }
        if self.data[self.len - 1] == 0x0D || self.data[self.len - 1] == 0x0A {
            return true;
        }
        false
    }

    /// The buffered data without a trailing `\n` and `\r`.
    pub fn data_without_eol(&self) -> (s: &[u8])
        ensures
            s@ == strip_eol(self@),
    {
        proof {
            use_type_invariant(self);
        }
        let mut end = self.len;
        if end > 0 && self.data[end - 1] == 0x0A {
            end = end - 1;
        }
        if end > 0 && self.data[end - 1] == 0x0D {
            end = end - 1;
        }
        let s = &self.data[0..end];
        assert(s@ =~= strip_eol(self@));
        s
    }
}

impl Default for ScanBuffer {
    fn default() -> (b: Self)
        ensures
            b@ == Seq::<u8>::empty(),
    {
        Self::new()
    }
}

/// Driver states.
#[derive(Debug, Clone, Copy, PartialEq, Eq, Structural)]
pub enum ScannerState {
    Uninitialized,
    Detecting,
    Configuring,
    Ready,
    Scanning,
    ScanComplete,
    Error(ScannerError),
}

/// Operations every scanner driver offers.
pub trait ScannerDriver {
    fn init(&mut self) -> Result<ScannerModel, ScannerError>;

    fn ping(&mut self) -> bool;

    fn trigger_scan(&mut self) -> Result<(), ScannerError>;

    fn read_scan(&mut self) -> Option<Vec<u8>>;

    fn state(&self) -> ScannerState;

    fn status(&self) -> ScannerStatus;

    fn data_ready(&self) -> bool;
}

/// Host-side UART baud rates.
#[derive(Debug, Clone, Copy, PartialEq, Eq, Structural)]
pub enum BaudRate {
    Bps9600,
    Bps115200,
}

impl BaudRate {
    pub fn as_u32(&self) -> (bps: u32)
        ensures
            bps == match *self {
                BaudRate::Bps9600 => 9600u32,
                BaudRate::Bps115200 => 115200u32,
            },
    {
        match self {
            BaudRate::Bps9600 => 9600,
            BaudRate::Bps115200 => 115200,
        }
    }
}

/// Outcome of a failed non-blocking UART read.
#[derive(Debug, Clone, Copy, PartialEq, Eq, Structural)]
pub enum UartReadError {
    /// No byte is available yet.
    WouldBlock,
    /// The UART reported an error.
    Other,
}

/// The serial port the scanner is wired to: a non-blocking byte reader, a
/// blocking writer, and a drain of whatever is pending in the receiver.
pub trait Gm65Uart {
    fn read(&mut self) -> Result<u8, UartReadError>;

    fn bwrite_all(&mut self, data: &[u8]) -> Result<(), ()>;

    /// Discards pending received bytes until the line stays quiet.
    fn drain(&mut self);
}

/// One call the driver made on its UART, with what the call gave back.
pub enum UartEvent {
    /// Bytes handed to the blocking writer, and whether it succeeded.
    Write(Seq<u8>, bool),
    /// One non-blocking read and its outcome.
    Read(Result<u8, UartReadError>),
    /// A drain of the receiver.
    Drain,
}

/// Polls without a byte after which a reply is given up.
pub const REPLY_POLL_LIMIT: u32 = 200_000;

/// Progress of a reply collection after `reads`: the bytes received, the
/// polls since the last byte, and whether the UART reported an error.
pub open spec fn poll_state(reads: Seq<UartEvent>) -> (Seq<u8>, nat, bool)
    decreases reads.len(),
{
    if reads.len() == 0 {
        (Seq::empty(), 0, false)
    } else {
        let s = poll_state(reads.drop_last());
        match reads.last() {
            UartEvent::Read(Ok(b)) => (s.0.push(b), 0, s.2),
            UartEvent::Read(Err(UartReadError::WouldBlock)) => (s.0, s.1 + 1, s.2),
            _ => (s.0, s.1, true),
        }
    }
}

/// Whether a reply collection in state `s` stops: a UART error, a full
/// 7-byte reply, or too many idle polls.
pub open spec fn poll_done(s: (Seq<u8>, nat, bool)) -> bool {
    s.2 || s.0.len() >= GM65_SUCCESS_LEN || s.1 >= REPLY_POLL_LIMIT
}

/// Whether `reads` is a whole reply collection: reads only, each made while
/// the collection had not yet stopped, and stopped after the last.
pub open spec fn is_reply_poll(reads: Seq<UartEvent>) -> bool {
    &&& forall|i: int| 0 <= i < reads.len() ==> #[trigger] reads[i] is Read
    &&& forall|k: int| 0 <= k < reads.len() ==> !poll_done(#[trigger] poll_state(reads.take(k)))
    &&& poll_done(poll_state(reads))
}

/// The reply a collection yields: its bytes when 7 arrived without a UART error.
pub open spec fn poll_reply(reads: Seq<UartEvent>) -> Option<Seq<u8>> {
    let s = poll_state(reads);
    if !s.2 && s.0.len() == GM65_SUCCESS_LEN {
        Some(s.0)
    } else {
        None
    }
}

/// Whether `events` is one command exchange: `cmd` written, then, when the
/// write succeeded, one whole reply collection.
pub open spec fn is_command_exchange(cmd: Seq<u8>, events: Seq<UartEvent>) -> bool {
    &&& events.len() >= 1
    &&& match events[0] {
        UartEvent::Write(data, ok) => data == cmd && if ok {
            is_reply_poll(events.skip(1))
        } else {
            events.len() == 1
        },
        _ => false,
    }
}

/// The reply of a command exchange: none when the write failed.
pub open spec fn command_reply(events: Seq<UartEvent>) -> Option<Seq<u8>> {
    match events[0] {
        UartEvent::Write(_, true) => poll_reply(events.skip(1)),
        _ => None,
    }
}

/// Whether the transcript went from `before` to `after` by one exchange of `cmd`.
pub open spec fn exchanged(before: Seq<UartEvent>, after: Seq<UartEvent>, cmd: Seq<u8>) -> bool {
    before.is_prefix_of(after) && is_command_exchange(cmd, after.skip(before.len() as int))
}

/// The reply of the exchange that took the transcript from `before` to `after`.
pub open spec fn reply_between(before: Seq<UartEvent>, after: Seq<UartEvent>) -> Option<Seq<u8>> {
    command_reply(after.skip(before.len() as int))
}

/// Whether a reply is there and is the success frame.
pub open spec fn acknowledged(reply: Option<Seq<u8>>) -> bool {
    reply matches Some(resp) && is_success_reply(resp)
}

/// The setting value a reply carries.
pub open spec fn reply_setting(reply: Option<Seq<u8>>) -> Option<u8> {
    if acknowledged(reply) {
        Some(reply->0[4])
    } else {
        None
    }
}

/// The read of the serial-mode register, by which a scanner is detected.
pub open spec fn serial_probe_command() -> Seq<u8> {
    get_setting_bytes(seq![0x00u8, 0x0Du8])
}

/// Number of scan settings `init` reads back and rewrites.
pub const INIT_SETTING_COUNT: usize = 6;

/// The `i`-th scan setting `init` enforces: register and wanted value
/// (command mode 0xD1, no timeout, scan interval, same-barcode delay,
/// bar-code types, QR on).
pub open spec fn init_setting(i: nat) -> (Seq<u8>, u8) {
    if i == 0 {
        (seq![0x00u8, 0x00], 0xD1u8)
    } else if i == 1 {
        (seq![0x00u8, 0x06], 0x00u8)
    } else if i == 2 {
        (seq![0x00u8, 0x05], 0x01u8)
    } else if i == 3 {
        (seq![0x00u8, 0x13], 0x85u8)
    } else if i == 4 {
        (seq![0x00u8, 0x2C], 0x01u8)
    } else {
        (seq![0x00u8, 0x3F], 0x01u8)
    }
}

/// Steps of the scanner initialisation.
pub enum InitStage {
    /// Read the serial-mode register to detect the scanner.
    Probe,
    /// Read the serial-mode register again.
    ReadSerial,
    /// Write this serial-mode value.
    WriteSerial(u8),
    /// Read back the `i`-th scan setting.
    ReadSetting(nat),
    /// Write the `i`-th scan setting.
    WriteSetting(nat),
    /// Read the firmware version.
    ReadVersion,
    /// Read the RAW-mode register.
    ReadRaw,
    /// Turn RAW mode on.
    WriteRaw,
    /// Save the settings to EEPROM.
    Save,
    /// Switch the scanner to 115200 bps.
    Baud,
    /// Finished with this outcome.
    Done(Result<ScannerModel, ScannerError>),
}

/// The command a step writes.
pub open spec fn init_stage_command(st: InitStage) -> Seq<u8> {
    match st {
        InitStage::Probe => serial_probe_command(),
        InitStage::ReadSerial => serial_probe_command(),
        InitStage::WriteSerial(v) => set_setting_bytes(seq![0x00u8, 0x0D], v),
        InitStage::ReadSetting(i) => get_setting_bytes(init_setting(i).0),
        InitStage::WriteSetting(i) => set_setting_bytes(init_setting(i).0, init_setting(i).1),
        InitStage::ReadVersion => get_setting_bytes(seq![0x00u8, 0xE2]),
        InitStage::ReadRaw => get_setting_bytes(seq![0x00u8, 0xBC]),
        InitStage::WriteRaw => set_setting_bytes(seq![0x00u8, 0xBC], 0x08),
        InitStage::Save => save_settings_bytes(),
        InitStage::Baud => set_setting_2byte_bytes(seq![0x00u8, 0x2A], seq![0x1Au8, 0x00]),
        InitStage::Done(_) => Seq::empty(),
    }
}

/// The step after the `i`-th scan setting is in place.
pub open spec fn after_setting(i: nat) -> InitStage {
    if i + 1 < INIT_SETTING_COUNT {
        InitStage::ReadSetting(i + 1)
    } else {
        InitStage::ReadVersion
    }
}

/// The step that follows `st` when its command got `reply`: a missing probe
/// answer means no scanner, a failed serial-mode or setting read or write
/// fails the configuration, RAW mode is turned on for firmware version
/// 0x69, and save and baud switch are tolerated to fail.
pub open spec fn next_init_stage(st: InitStage, reply: Option<Seq<u8>>) -> InitStage {
    match st {
        InitStage::Probe => if reply_setting(reply) is Some {
            InitStage::ReadSerial
        } else {
            InitStage::Done(Err(ScannerError::NotDetected))
        },
        InitStage::ReadSerial => match reply_setting(reply) {
            None => InitStage::Done(Err(ScannerError::ConfigFailed)),
            Some(v) => if v & 0x03 != 0 {
                InitStage::WriteSerial(v & 0xFC)
            } else {
                InitStage::ReadSetting(0)
            },
        },
        InitStage::WriteSerial(_) => if acknowledged(reply) {
            InitStage::ReadSetting(0)
        } else {
            InitStage::Done(Err(ScannerError::ConfigFailed))
        },
        InitStage::ReadSetting(i) => match reply_setting(reply) {
            None => InitStage::Done(Err(ScannerError::ConfigFailed)),
            Some(x) => if x != init_setting(i).1 {
                InitStage::WriteSetting(i)
            } else {
                after_setting(i)
            },
        },
        InitStage::WriteSetting(i) => if acknowledged(reply) {
            after_setting(i)
        } else {
            InitStage::Done(Err(ScannerError::ConfigFailed))
        },
        InitStage::ReadVersion => if reply_setting(reply) == Some(0x69u8) {
            InitStage::ReadRaw
        } else {
            InitStage::Save
        },
        InitStage::ReadRaw => match reply_setting(reply) {
            Some(v) => if v != 0x08 {
                InitStage::WriteRaw
            } else {
                InitStage::Save
            },
            None => InitStage::Save,
        },
        InitStage::WriteRaw => InitStage::Save,
        InitStage::Save => InitStage::Baud,
        InitStage::Baud => InitStage::Done(Ok(ScannerModel::Gm65)),
        InitStage::Done(r) => InitStage::Done(r),
    }
}

/// The exchanges `exs`, one after another.
pub open spec fn concat_all(exs: Seq<Seq<UartEvent>>) -> Seq<UartEvent>
    decreases exs.len(),
{
    if exs.len() == 0 {
        Seq::empty()
    } else {
        concat_all(exs.drop_last()) + exs.last()
    }
}

/// The initialisation step reached after the exchanges `exs`.
pub open spec fn init_run_stage(exs: Seq<Seq<UartEvent>>) -> InitStage
    decreases exs.len(),
{
    if exs.len() == 0 {
        InitStage::Probe
    } else {
        next_init_stage(init_run_stage(exs.drop_last()), command_reply(exs.last()))
    }
}

/// Whether each of `exs` is the exchange of the command its step writes,
/// made before initialisation finished.
pub open spec fn init_run_valid(exs: Seq<Seq<UartEvent>>) -> bool
    decreases exs.len(),
{
    if exs.len() == 0 {
        true
    } else {
        let st = init_run_stage(exs.drop_last());
        &&& init_run_valid(exs.drop_last())
        &&& !(st is Done)
        &&& is_command_exchange(init_stage_command(st), exs.last())
    }
}

/// Whether the UART calls from `base` to `after` are a whole initialisation
/// run ending in `r`.
pub open spec fn init_transcript(
    base: Seq<UartEvent>,
    after: Seq<UartEvent>,
    r: Result<ScannerModel, ScannerError>,
) -> bool {
    exists|exs: Seq<Seq<UartEvent>>|
        #[trigger] init_run_valid(exs) && init_run_stage(exs) == InitStage::Done(r) && after
            == base + concat_all(exs)
}

/// Idle polls after which a scan is given up.
pub const SCAN_POLL_LIMIT: u32 = 500_000;

/// How a scan read ends.
pub enum ScanEnd {
    /// A byte arrived with the buffer full.
    Overflow,
    /// The UART reported an error.
    UartFailed,
    /// The line stayed idle for `SCAN_POLL_LIMIT` polls.
    Timeout,
    /// A line terminator arrived with nothing before it.
    EmptyLine,
    /// A line terminator arrived; the line without it.
    Line(Seq<u8>),
}

/// Progress of a scan read from buffer contents `start` after `reads`: the
/// buffer, the idle polls since the last byte, and how it ended, if it did.
pub open spec fn scan_state(start: Seq<u8>, reads: Seq<UartEvent>) -> (Seq<u8>, nat, Option<ScanEnd>)
    decreases reads.len(),
{
    if reads.len() == 0 {
        (start, 0, None)
    } else {
        let s = scan_state(start, reads.drop_last());
        match reads.last() {
            UartEvent::Read(Ok(b)) => if s.0.len() >= MAX_SCAN_SIZE {
                (s.0, s.1, Some(ScanEnd::Overflow))
            } else if ends_with_eol(s.0.push(b)) {
                if strip_eol(s.0.push(b)).len() == 0 {
                    (Seq::empty(), s.1, Some(ScanEnd::EmptyLine))
                } else {
                    (Seq::empty(), s.1, Some(ScanEnd::Line(strip_eol(s.0.push(b)))))
                }
            } else {
                (s.0.push(b), 0, None)
            },
            UartEvent::Read(Err(UartReadError::WouldBlock)) => if s.1 + 1 >= SCAN_POLL_LIMIT {
                (s.0, s.1 + 1, Some(ScanEnd::Timeout))
            } else {
                (s.0, s.1 + 1, None)
            },
            _ => (s.0, s.1, Some(ScanEnd::UartFailed)),
        }
    }
}

/// Whether `reads` is a whole scan read from buffer contents `start`: reads
/// only, each made before the scan ended, and ended after the last.
pub open spec fn is_scan_run(start: Seq<u8>, reads: Seq<UartEvent>) -> bool {
    &&& forall|i: int| 0 <= i < reads.len() ==> #[trigger] reads[i] is Read
    &&& forall|k: int| 0 <= k < reads.len() ==> (#[trigger] scan_state(start, reads.take(k))).2 is None
    &&& scan_state(start, reads).2 is Some
}

/// Driver state and result after a scan read of `reads` by an initialized
/// driver in state `v`: the line without its terminator, or the error state.
pub open spec fn spec_read_scan(v: ScannerView, reads: Seq<UartEvent>) -> (ScannerView, Option<Seq<u8>>) {
    let s = scan_state(v.buffer, reads);
    match s.2 {
        Some(ScanEnd::Line(d)) => (
            ScannerView {
                state: ScannerState::ScanComplete,
                buffer: s.0,
                last_scan_len: Some(d.len() as usize),
                ..v
            },
            Some(d),
        ),
        Some(ScanEnd::EmptyLine) => (ScannerView { buffer: s.0, ..v }, None),
        Some(ScanEnd::Overflow) => (
            ScannerView { state: ScannerState::Error(ScannerError::BufferOverflow), buffer: s.0, ..v },
            None,
        ),
        Some(ScanEnd::UartFailed) => (
            ScannerView { state: ScannerState::Error(ScannerError::UartError), buffer: s.0, ..v },
            None,
        ),
        _ => (
            ScannerView { state: ScannerState::Error(ScannerError::Timeout), buffer: s.0, ..v },
            None,
        ),
    }
}

/// A returned byte vector taken by its view.
pub open spec fn bytes_opt_view(r: Option<Vec<u8>>) -> Option<Seq<u8>> {
    match r {
        Some(v) => Some(v@),
        None => None,
    }
}

/// The driver's state apart from the UART.
pub struct ScannerView {
    pub config: ScannerConfig,
    pub state: ScannerState,
    pub buffer: Seq<u8>,
    pub initialized: bool,
    pub detected_model: ScannerModel,
    pub last_scan_len: Option<usize>,
}

/// GM65/M3Y scanner driver.
pub struct Gm65Scanner<UART> {
    uart: UART,
    config: ScannerConfig,
    state: ScannerState,
    buffer: ScanBuffer,
    initialized: bool,
    detected_model: ScannerModel,
    last_scan_len: Option<usize>,
    transcript: Ghost<Seq<UartEvent>>,
}

impl<UART> View for Gm65Scanner<UART> {
    type V = ScannerView;

    closed spec fn view(&self) -> ScannerView {
        ScannerView {
            config: self.config,
            state: self.state,
            buffer: self.buffer@,
            initialized: self.initialized,
            detected_model: self.detected_model,
            last_scan_len: self.last_scan_len,
        }
    }
}

/// Whether a reply is the 7-byte success frame `02 00 00 01 v ..`.
pub open spec fn is_success_reply(resp: Seq<u8>) -> bool {
    &&& resp.len() == GM65_SUCCESS_LEN
    &&& resp[0] == 0x02u8
    &&& resp[1] == 0x00u8
    &&& resp[2] == 0x00u8
    &&& resp[3] == 0x01u8
}

/// Whether `resp` is the 7-byte success reply.
pub fn success_reply(resp: &[u8]) -> (ok: bool)
    ensures
        ok == is_success_reply(resp@),
{
    resp.len() == GM65_SUCCESS_LEN && resp[0] == 0x02 && resp[1] == 0x00 && resp[2] == 0x00
        && resp[3] == 0x01
}

/// Setting value carried by a `get_setting` reply.
pub fn setting_from_reply(resp: &[u8]) -> (v: Option<u8>)
    ensures
        v == (if is_success_reply(resp@) {
            Some(resp@[4])
        } else {
            None
        }),
{
    if success_reply(resp) {
        Some(resp[4])
    } else {
        None
    }
}

impl<UART> Gm65Scanner<UART> {
    /// The UART this driver owns.
    pub closed spec fn port(&self) -> UART {
        self.uart
    }

    /// Every call the driver has made on its UART, oldest first.
    pub closed spec fn transcript(&self) -> Seq<UartEvent> {
        self.transcript@
    }

    pub fn new(uart: UART, config: ScannerConfig) -> (s: Self)
        ensures
            s.port() == uart,
            s.transcript() == Seq::<UartEvent>::empty(),
            s@ == (ScannerView {
                config,
                state: ScannerState::Uninitialized,
                buffer: Seq::empty(),
                initialized: false,
                detected_model: ScannerModel::Unknown,
                last_scan_len: None,
            }),
    {
        Self {
            uart,
            config,
            state: ScannerState::Uninitialized,
            buffer: ScanBuffer::new(),
            initialized: false,
            detected_model: ScannerModel::Unknown,
            last_scan_len: None,
            transcript: Ghost(Seq::empty()),
        }
    }

    pub fn with_default_config(uart: UART) -> (s: Self)
        ensures
            s.port() == uart,
            s.transcript() == Seq::<UartEvent>::empty(),
            s@ == (ScannerView {
                config: default_config(),
                state: ScannerState::Uninitialized,
                buffer: Seq::empty(),
                initialized: false,
                detected_model: ScannerModel::Unknown,
                last_scan_len: None,
            }),
    {
        Self::new(uart, ScannerConfig::default())
    }

    /// Gives the UART back.
    pub fn release(self) -> (uart: UART)
        ensures
            uart == self.port(),
    {
        self.uart
    }
}

impl<UART: Gm65Uart> Gm65Scanner<UART> {
    /// Writes `data` to the UART.
    fn uart_write_all(&mut self, data: &[u8]) -> (r: Result<(), ()>)
        ensures
            final(self)@ == old(self)@,
            final(self).transcript() == old(self).transcript().push(
                UartEvent::Write(data@, r is Ok),
            ),
    {
        let r = match self.uart.bwrite_all(data) {
            Ok(()) => Ok(()),
            Err(_) => Err(()),
        };
        self.transcript = Ghost(self.transcript@.push(UartEvent::Write(data@, r is Ok)));
        r
    }

    /// Writes `cmd` and collects a 7-byte reply; `None` if the write fails,
    /// the UART errors, or the line stays quiet for 200 000 polls.
    fn send_command(&mut self, cmd: &[u8]) -> (r: Option<Vec<u8>>)
        ensures
            final(self)@ == old(self)@,
            exchanged(old(self).transcript(), final(self).transcript(), cmd@),
            reply_between(old(self).transcript(), final(self).transcript()) == (match r {
                Some(resp) => Some(resp@),
                None => None::<Seq<u8>>,
            }),
            r matches Some(resp) ==> resp@.len() == GM65_SUCCESS_LEN,
    {
        let ghost t0 = self.transcript();
        if self.uart_write_all(cmd).is_err() {
            proof {
                assert(self.transcript() =~= t0.push(UartEvent::Write(cmd@, false)) + Seq::empty());
                lemma_exchange_tail(t0, UartEvent::Write(cmd@, false), Seq::empty());
            }
            return None;
        }
        let ghost before = self@;
        let ghost w = UartEvent::Write(cmd@, true);
        let ghost mut reads: Seq<UartEvent> = Seq::empty();
        proof {
            assert(self.transcript() =~= t0.push(w) + reads);
            assert(poll_state(reads) == (Seq::<u8>::empty(), 0nat, false));
        }
        let mut resp: Vec<u8> = Vec::with_capacity(GM65_SUCCESS_LEN);
        assert(resp@ =~= Seq::<u8>::empty());
        let mut total_attempts: u32 = 0;
        let max_attempts: u32 = REPLY_POLL_LIMIT;
        while resp.len() < GM65_SUCCESS_LEN && total_attempts < max_attempts
            invariant
                self@ == before,
                before == old(self)@,
                t0 == old(self).transcript(),
                w == UartEvent::Write(cmd@, true),
                self.transcript() == t0.push(w) + reads,
                poll_state(reads) == (resp@, total_attempts as nat, false),
                forall|i: int| 0 <= i < reads.len() ==> #[trigger] reads[i] is Read,
                forall|k: int|
                    0 <= k < reads.len() ==> !poll_done(#[trigger] poll_state(reads.take(k))),
                resp@.len() <= GM65_SUCCESS_LEN,
                max_attempts == REPLY_POLL_LIMIT,
            decreases GM65_SUCCESS_LEN - resp@.len(), max_attempts - total_attempts,
        {
            let ghost prev = reads;
            let res = self.uart.read();
            self.transcript = Ghost(self.transcript@.push(UartEvent::Read(res)));
            proof {
                reads = reads.push(UartEvent::Read(res));
                assert(reads.drop_last() =~= prev);
                assert(self.transcript() =~= t0.push(w) + reads);
                assert forall|k: int| 0 <= k < reads.len() implies !poll_done(
                    #[trigger] poll_state(reads.take(k)),
                ) by {
                    if k < prev.len() {
                        assert(reads.take(k) =~= prev.take(k));
                    } else {
                        assert(reads.take(k) =~= prev);
                    }
                }
            }
            match res {
                Ok(byte) => {
                    resp.push(byte);
                    total_attempts = 0;
                },
                Err(UartReadError::WouldBlock) => {
                    total_attempts = total_attempts + 1;
                },
                Err(UartReadError::Other) => {
                    proof {
                        lemma_exchange_tail(t0, w, reads);
                    }
                    return None;
                },
            }
        }
        proof {
            lemma_exchange_tail(t0, w, reads);
        }
        if resp.len() != GM65_SUCCESS_LEN {
            return None;
        }
        Some(resp)
    }

    /// Reads the one-byte setting at `addr`.
    fn get_setting(&mut self, addr: [u8; 2]) -> (r: Option<u8>)
        ensures
            final(self)@ == old(self)@,
            exchanged(old(self).transcript(), final(self).transcript(), get_setting_bytes(addr@)),
            r == reply_setting(reply_between(old(self).transcript(), final(self).transcript())),
    {
        let cmd = build_get_setting(addr);
        let resp = match self.send_command(&cmd) {
            Some(r) => r,
            None => return None,
        };
        setting_from_reply(resp.as_slice())
    }

    /// Writes the one-byte setting at `addr`; whether the scanner acknowledged.
    fn set_setting(&mut self, addr: [u8; 2], value: u8) -> (ok: bool)
        ensures
            final(self)@ == old(self)@,
            exchanged(
                old(self).transcript(),
                final(self).transcript(),
                set_setting_bytes(addr@, value),
            ),
            ok == acknowledged(reply_between(old(self).transcript(), final(self).transcript())),
    {
        let cmd = build_set_setting(addr, value);
        match self.send_command(&cmd) {
            Some(resp) => success_reply(resp.as_slice()),
            None => false,
        }
    }

    /// Writes the two-byte setting at `addr`; whether the scanner acknowledged.
    fn set_setting_2byte(&mut self, addr: [u8; 2], value: [u8; 2]) -> (ok: bool)
        ensures
            final(self)@ == old(self)@,
            exchanged(
                old(self).transcript(),
                final(self).transcript(),
                set_setting_2byte_bytes(addr@, value@),
            ),
            ok == acknowledged(reply_between(old(self).transcript(), final(self).transcript())),
    {
        let cmd = build_set_setting_2byte(addr, value);
        match self.send_command(&cmd) {
            Some(resp) => success_reply(resp.as_slice()),
            None => false,
        }
    }

    /// Saves the settings to EEPROM; whether the scanner acknowledged.
    fn save_settings(&mut self) -> (ok: bool)
        ensures
            final(self)@ == old(self)@,
            exchanged(old(self).transcript(), final(self).transcript(), save_settings_bytes()),
            ok == acknowledged(reply_between(old(self).transcript(), final(self).transcript())),
    {
        let cmd = build_save_settings();
        match self.send_command(&cmd) {
            Some(resp) => success_reply(resp.as_slice()),
            None => false,
        }
    }

    /// Drains the receiver, then whether the serial-mode register reads back.
    fn probe_gm65(&mut self) -> (found: bool)
        ensures
            final(self)@ == old(self)@,
            exchanged(
                old(self).transcript().push(UartEvent::Drain),
                final(self).transcript(),
                serial_probe_command(),
            ),
            found == reply_setting(
                reply_between(old(self).transcript().push(UartEvent::Drain), final(self).transcript()),
            ) is Some,
    {
        self.uart.drain();
        self.transcript = Ghost(self.transcript@.push(UartEvent::Drain));
        assert(SERIAL_ADDR@ =~= seq![0x00u8, 0x0Du8]);
        self.get_setting(SERIAL_ADDR).is_some()
    }

    /// Marks the configuration as failed.
    fn fail_config(&mut self) -> (e: ScannerError)
        ensures
            e == ScannerError::ConfigFailed,
            final(self)@ == (ScannerView { state: ScannerState::Error(e), ..old(self)@ }),
            final(self).transcript() == old(self).transcript(),
    {
        self.state = ScannerState::Error(ScannerError::ConfigFailed);
        ScannerError::ConfigFailed
    }
}

impl<UART: Gm65Uart> ScannerDriver for Gm65Scanner<UART> {
    /// Detects and configures the scanner: probe, serial mode, command mode
    /// and scan settings (each read back and rewritten only when different),
    /// RAW mode on firmware that needs it, save to EEPROM, switch to
    /// 115200 bps.
    #[verifier::rlimit(50)]
    fn init(&mut self) -> (r: Result<ScannerModel, ScannerError>)
        ensures
            final(self)@.buffer == old(self)@.buffer,
            final(self)@.last_scan_len == old(self)@.last_scan_len,
            r matches Ok(m) ==> m == ScannerModel::Gm65 && final(self)@ == (ScannerView {
                state: ScannerState::Ready,
                initialized: true,
                detected_model: ScannerModel::Gm65,
                config: ScannerConfig { model: ScannerModel::Gm65, ..old(self)@.config },
                ..old(self)@
            }),
            r matches Err(e) ==> final(self)@.state == ScannerState::Error(e)
                && final(self)@.initialized == old(self)@.initialized
                && final(self)@.config == old(self)@.config && (e == ScannerError::NotDetected
                && final(self)@.detected_model == old(self)@.detected_model || e
                == ScannerError::ConfigFailed && final(self)@.detected_model
                == ScannerModel::Gm65),
            init_transcript(old(self).transcript().push(UartEvent::Drain), final(self).transcript(), r),
    {
        let ghost base = self.transcript().push(UartEvent::Drain);
        let ghost mut exs: Seq<Seq<UartEvent>> = Seq::empty();
        assert(base + concat_all(exs) =~= base);
        assert(SERIAL_ADDR@ =~= seq![0x00u8, 0x0Du8]);
        self.state = ScannerState::Detecting;

        let found = self.probe_gm65();
        proof {
            lemma_init_push(base, exs, base, self.transcript());
            exs = exs.push(self.transcript().skip(base.len() as int));
        }
        if !found {
            self.state = ScannerState::Error(ScannerError::NotDetected);
            proof {
                lemma_init_witness(base, self.transcript(), exs, Err(ScannerError::NotDetected));
            }
            return Err(ScannerError::NotDetected);
        }

        self.detected_model = ScannerModel::Gm65;
        self.state = ScannerState::Configuring;

        let ghost tb = self.transcript();
        let serial = self.get_setting(SERIAL_ADDR);
        proof {
            lemma_init_push(base, exs, tb, self.transcript());
            exs = exs.push(self.transcript().skip(tb.len() as int));
        }
        let serial_val = match serial {
            Some(v) => v,
            None => {
                let e = self.fail_config();
                proof {
                    lemma_init_witness(base, self.transcript(), exs, Err(e));
                }
                return Err(e);
            },
        };

        if serial_val & 0x03 != 0 {
            let ghost tb = self.transcript();
            let ok = self.set_setting(SERIAL_ADDR, serial_val & 0xFC);
            proof {
                lemma_init_push(base, exs, tb, self.transcript());
                exs = exs.push(self.transcript().skip(tb.len() as int));
            }
            if !ok {
                let e = self.fail_config();
                proof {
                    lemma_init_witness(base, self.transcript(), exs, Err(e));
                }
                return Err(e);
            }
        }

        let cmd_mode: u8 = 0xD1;
        let scanner_settings: [([u8; 2], u8); 6] = [
            (SETTINGS_ADDR, cmd_mode),
            (TIMEOUT_ADDR, 0x00),
            (SCAN_INTERVAL_ADDR, SCAN_INTERVAL_MS),
            (SAME_BARCODE_DELAY_ADDR, SAME_BARCODE_DELAY),
            (BAR_TYPE_ADDR, 0x01),
            (QR_ADDR, 0x01),
        ];
        proof {
            assert(scanner_settings@[0].0@ =~= init_setting(0).0);
            assert(scanner_settings@[1].0@ =~= init_setting(1).0);
            assert(scanner_settings@[2].0@ =~= init_setting(2).0);
            assert(scanner_settings@[3].0@ =~= init_setting(3).0);
            assert(scanner_settings@[4].0@ =~= init_setting(4).0);
            assert(scanner_settings@[5].0@ =~= init_setting(5).0);
        }

        let ghost configuring = self@;
        let mut i: usize = 0;
        while i < INIT_SETTING_COUNT
            invariant
                self@ == configuring,
                configuring == (ScannerView {
                    state: ScannerState::Configuring,
                    detected_model: ScannerModel::Gm65,
                    ..old(self)@
                }),
                i <= INIT_SETTING_COUNT,
                base == old(self).transcript().push(UartEvent::Drain),
                self.transcript() == base + concat_all(exs),
                init_run_valid(exs),
                init_run_stage(exs) == if i < INIT_SETTING_COUNT {
                    InitStage::ReadSetting(i as nat)
                } else {
                    InitStage::ReadVersion
                },
                forall|j: int|
                    0 <= j < INIT_SETTING_COUNT ==> (#[trigger] scanner_settings@[j]).0@
                        == init_setting(j as nat).0 && scanner_settings@[j].1 == init_setting(
                        j as nat,
                    ).1,
            decreases INIT_SETTING_COUNT - i,
        {
            let (addr, set_val) = scanner_settings[i];
            assert(scanner_settings@[i as int].0@ == init_setting(i as nat).0);
            let ghost tb = self.transcript();
            let got = self.get_setting(addr);
            proof {
                lemma_init_push(base, exs, tb, self.transcript());
                exs = exs.push(self.transcript().skip(tb.len() as int));
            }
            match got {
                Some(val) => {
                    if val != set_val {
                        let ghost tb = self.transcript();
                        let ok = self.set_setting(addr, set_val);
                        proof {
                            lemma_init_push(base, exs, tb, self.transcript());
                            exs = exs.push(self.transcript().skip(tb.len() as int));
                        }
                        if !ok {
                            let e = self.fail_config();
                            proof {
                                lemma_init_witness(base, self.transcript(), exs, Err(e));
                            }
                            return Err(e);
                        }
                    }
                },
                None => {
                    let e = self.fail_config();
                    proof {
                        lemma_init_witness(base, self.transcript(), exs, Err(e));
                    }
                    return Err(e);
                },
            }
            i = i + 1;
        }
        assert(init_run_stage(exs) == InitStage::ReadVersion);

        assert(VERSION_ADDR@ =~= seq![0x00u8, 0xE2u8]);
        assert(RAW_MODE_ADDR@ =~= seq![0x00u8, 0xBCu8]);
        let ghost tb = self.transcript();
        let version = self.get_setting(VERSION_ADDR);
        proof {
            lemma_init_push(base, exs, tb, self.transcript());
            exs = exs.push(self.transcript().skip(tb.len() as int));
        }
        if let Some(version) = version {
            if version == VERSION_NEEDS_RAW {
                let ghost tb = self.transcript();
                let raw = self.get_setting(RAW_MODE_ADDR);
                proof {
                    lemma_init_push(base, exs, tb, self.transcript());
                    exs = exs.push(self.transcript().skip(tb.len() as int));
                }
                match raw {
                    Some(val) => {
                        if val != RAW_MODE_VALUE {
                            let ghost tb = self.transcript();
                            let _raw_set = self.set_setting(RAW_MODE_ADDR, RAW_MODE_VALUE);
                            proof {
                                lemma_init_push(base, exs, tb, self.transcript());
                                exs = exs.push(self.transcript().skip(tb.len() as int));
                            }
                        }
                    },
                    None => {},
                }
            }
        }
        assert(init_run_stage(exs) == InitStage::Save);

        // A failed save or baud switch is tolerated: the scanner still works
        // with the settings it has.
        let ghost tb = self.transcript();
        let _saved = self.save_settings();
        proof {
            lemma_init_push(base, exs, tb, self.transcript());
            exs = exs.push(self.transcript().skip(tb.len() as int));
        }
        assert(BAUD_RATE_ADDR@ =~= seq![0x00u8, 0x2Au8]);
        assert(BAUD_RATE_115200@ =~= seq![0x1Au8, 0x00u8]);
        let ghost tb = self.transcript();
        let _baud = self.set_setting_2byte(BAUD_RATE_ADDR, BAUD_RATE_115200);
        proof {
            lemma_init_push(base, exs, tb, self.transcript());
            exs = exs.push(self.transcript().skip(tb.len() as int));
        }

        self.initialized = true;
        self.state = ScannerState::Ready;
        self.config.model = self.detected_model;
        proof {
            lemma_init_witness(base, self.transcript(), exs, Ok(ScannerModel::Gm65));
        }
        Ok(self.detected_model)
    }

    /// Whether the scanner answers a settings read.
    fn ping(&mut self) -> (alive: bool)
        ensures
            final(self)@ == old(self)@,
            exchanged(old(self).transcript(), final(self).transcript(), serial_probe_command()),
            alive == reply_setting(
                reply_between(old(self).transcript(), final(self).transcript()),
            ) is Some,
    {
        assert(SERIAL_ADDR@ =~= seq![0x00u8, 0x0Du8]);
        self.get_setting(SERIAL_ADDR).is_some()
    }

    /// Starts a command-triggered scan.
    fn trigger_scan(&mut self) -> (r: Result<(), ScannerError>)
        ensures
            !old(self)@.initialized ==> r == Err::<(), ScannerError>(ScannerError::NotInitialized)
                && final(self)@ == old(self)@,
            old(self)@.initialized ==> r is Ok && final(self)@ == (ScannerView {
                state: ScannerState::Scanning,
                buffer: Seq::empty(),
                ..old(self)@
            }),
    {
        if !self.initialized {
            return Err(ScannerError::NotInitialized);
        }
        self.state = ScannerState::Scanning;
        self.buffer.clear();
        self.uart.drain();
        self.transcript = Ghost(self.transcript@.push(UartEvent::Drain));
        let cmd = build_set_setting(SCAN_ADDR, 0x01);
        let _ = self.uart_write_all(&cmd);
        Ok(())
    }

    /// Collects scanned bytes up to a line terminator and returns them
    /// without it. `None` when not initialized, on an empty line, on buffer
    /// overflow, on a UART error, or after 500 000 idle polls.
    fn read_scan(&mut self) -> (r: Option<Vec<u8>>)
        ensures
            final(self)@.config == old(self)@.config,
            final(self)@.initialized == old(self)@.initialized,
            final(self)@.detected_model == old(self)@.detected_model,
            !old(self)@.initialized ==> r is None && final(self)@ == old(self)@
                && final(self).transcript() == old(self).transcript(),
            old(self)@.initialized ==> old(self).transcript().is_prefix_of(final(self).transcript())
                && is_scan_run(
                old(self)@.buffer,
                final(self).transcript().skip(old(self).transcript().len() as int),
            ) && (final(self)@, bytes_opt_view(r)) == spec_read_scan(
                old(self)@,
                final(self).transcript().skip(old(self).transcript().len() as int),
            ),
            r matches Some(data) ==> old(self)@.initialized && 0 < data@.len() <= MAX_SCAN_SIZE
                && final(self)@.state == ScannerState::ScanComplete && final(self)@.last_scan_len
                == Some(data@.len() as usize) && final(self)@.buffer == Seq::<u8>::empty(),
            old(self)@.initialized && r is None ==> final(self)@.last_scan_len == old(
                self,
            )@.last_scan_len && (final(self)@.state == ScannerState::Error(
                ScannerError::BufferOverflow,
            ) || final(self)@.state == ScannerState::Error(ScannerError::UartError)
                || final(self)@.state == ScannerState::Error(ScannerError::Timeout) || (
            final(self)@.state == old(self)@.state && final(self)@.buffer == Seq::<u8>::empty())),
    {
        if !self.initialized {
            return None;
        }
        self.buffer.len_bound();
        let mut attempts: u32 = 0;
        let max_attempts: u32 = SCAN_POLL_LIMIT;
        let ghost start = self@;
        let ghost t0 = self.transcript();
        let ghost mut reads: Seq<UartEvent> = Seq::empty();
        assert(self.transcript() =~= t0 + reads);
        while attempts < max_attempts
            invariant
                start == old(self)@,
                t0 == old(self).transcript(),
                start.initialized,
                self@.buffer.len() <= MAX_SCAN_SIZE,
                self@.config == start.config,
                self@.initialized == start.initialized,
                self@.detected_model == start.detected_model,
                self@.state == start.state,
                self@.last_scan_len == start.last_scan_len,
                max_attempts == SCAN_POLL_LIMIT,
                self.transcript() == t0 + reads,
                scan_state(start.buffer, reads) == (self@.buffer, attempts as nat, if attempts
                    >= SCAN_POLL_LIMIT {
                    Some(ScanEnd::Timeout)
                } else {
                    None::<ScanEnd>
                }),
                forall|i: int| 0 <= i < reads.len() ==> #[trigger] reads[i] is Read,
                forall|k: int|
                    0 <= k < reads.len() ==> (#[trigger] scan_state(start.buffer, reads.take(k))).2 is None,
            decreases MAX_SCAN_SIZE - self@.buffer.len(), max_attempts - attempts,
        {
            let ghost prev = reads;
            let res = self.uart.read();
            self.transcript = Ghost(self.transcript@.push(UartEvent::Read(res)));
            proof {
                reads = reads.push(UartEvent::Read(res));
                assert(reads.drop_last() =~= prev);
                assert(self.transcript() =~= t0 + reads);
                assert forall|k: int| 0 <= k < reads.len() implies (#[trigger] scan_state(
                    start.buffer,
                    reads.take(k),
                )).2 is None by {
                    if k < prev.len() {
                        assert(reads.take(k) =~= prev.take(k));
                    } else {
                        assert(reads.take(k) =~= prev);
                    }
                }
                lemma_scan_tail(t0, reads);
            }
            match res {
                Ok(b) => {
                    if !self.buffer.push(b) {
                        self.state = ScannerState::Error(ScannerError::BufferOverflow);
                        return None;
                    }
                    if self.buffer.has_eol() {
                        let data = self.buffer.data_without_eol();
                        if data.len() == 0 {
                            self.buffer.clear();
                            return None;
                        }
                        let result = crate::bytes::to_vec(data);
                        self.last_scan_len = Some(result.len());
                        self.state = ScannerState::ScanComplete;
                        self.buffer.clear();
                        return Some(result);
                    }
                    attempts = 0;
                },
                Err(UartReadError::WouldBlock) => {
                    attempts = attempts + 1;
                },
                Err(UartReadError::Other) => {
                    self.state = ScannerState::Error(ScannerError::UartError);
                    return None;
                },
            }
        }
        proof {
            lemma_scan_tail(t0, reads);
        }
        self.state = ScannerState::Error(ScannerError::Timeout);
        None
    }

    fn state(&self) -> (s: ScannerState)
        ensures
            s == self@.state,
    {
        self.state
    }

    fn status(&self) -> (st: ScannerStatus)
        ensures
            st == (ScannerStatus {
                model: self@.detected_model,
                connected: self@.initialized,
                initialized: self@.initialized,
                config: self@.config,
                last_scan_len: self@.last_scan_len,
            }),
    {
        ScannerStatus {
            model: self.detected_model,
            connected: self.initialized,
            initialized: self.initialized,
            config: self.config,
            last_scan_len: self.last_scan_len,
        }
    }

    fn data_ready(&self) -> (ready: bool)
        ensures
            ready == (self@.state == ScannerState::ScanComplete),
    {
        self.state == ScannerState::ScanComplete
    }
}

/// `get_setting` request for register `addr`.
pub open spec fn get_setting_bytes(addr: Seq<u8>) -> Seq<u8> {
    seq![0x7Eu8, 0x00, 0x07, 0x01, addr[0], addr[1], 0x01, 0xAB, 0xCD]
}

/// `set_setting` request writing one byte to register `addr`.
pub open spec fn set_setting_bytes(addr: Seq<u8>, value: u8) -> Seq<u8> {
    seq![0x7Eu8, 0x00, 0x08, 0x01, addr[0], addr[1], value, 0xAB, 0xCD]
}

/// `set_setting` request writing two bytes to register `addr`.
pub open spec fn set_setting_2byte_bytes(addr: Seq<u8>, value: Seq<u8>) -> Seq<u8> {
    seq![0x7Eu8, 0x00, 0x08, 0x02, addr[0], addr[1], value[0], value[1], 0xAB, 0xCD]
}

fn build_get_setting(addr: [u8; 2]) -> (cmd: [u8; 9])
    ensures
        cmd@ == get_setting_bytes(addr@),
{
    let cmd = [0x7E, 0x00, 0x07, 0x01, addr[0], addr[1], 0x01, 0xAB, 0xCD];
    assert(cmd@ =~= get_setting_bytes(addr@));
    cmd
}

fn build_set_setting(addr: [u8; 2], value: u8) -> (cmd: [u8; 9])
    ensures
        cmd@ == set_setting_bytes(addr@, value),
{
    let cmd = [0x7E, 0x00, 0x08, 0x01, addr[0], addr[1], value, 0xAB, 0xCD];
    assert(cmd@ =~= set_setting_bytes(addr@, value));
    cmd
}

fn build_set_setting_2byte(addr: [u8; 2], value: [u8; 2]) -> (cmd: [u8; 10])
    ensures
        cmd@ == set_setting_2byte_bytes(addr@, value@),
{
    let cmd = [0x7E, 0x00, 0x08, 0x02, addr[0], addr[1], value[0], value[1], 0xAB, 0xCD];
    assert(cmd@ =~= set_setting_2byte_bytes(addr@, value@));
    cmd
}

/// Request that stores the current settings in EEPROM.
pub open spec fn save_settings_bytes() -> Seq<u8> {
    seq![0x7Eu8, 0x00, 0x09, 0x01, 0x00, 0x00, 0x00, 0xDE, 0xC8]
}

fn build_save_settings() -> (cmd: [u8; 9])
    ensures
        cmd@ == save_settings_bytes(),
{
    let cmd = [0x7E, 0x00, 0x09, 0x01, 0x00, 0x00, 0x00, 0xDE, 0xC8];
    assert(cmd@ =~= save_settings_bytes());
    cmd
}

/// One more exchange, from transcript `tb` to `ta`, extends an
/// initialisation run.
proof fn lemma_init_push(base: Seq<UartEvent>, exs: Seq<Seq<UartEvent>>, tb: Seq<UartEvent>, ta: Seq<UartEvent>)
    requires
        tb == base + concat_all(exs),
        tb.is_prefix_of(ta),
    ensures
        ta == base + concat_all(exs.push(ta.skip(tb.len() as int))),
        init_run_stage(exs.push(ta.skip(tb.len() as int))) == next_init_stage(
            init_run_stage(exs),
            reply_between(tb, ta),
        ),
        init_run_valid(exs.push(ta.skip(tb.len() as int))) == (init_run_valid(exs) && !(
        init_run_stage(exs) is Done) && is_command_exchange(
            init_stage_command(init_run_stage(exs)),
            ta.skip(tb.len() as int),
        )),
{
    let x = ta.skip(tb.len() as int);
    assert(exs.push(x).drop_last() =~= exs);
    assert(ta =~= tb + x);
    assert(base + concat_all(exs.push(x)) =~= base + concat_all(exs) + x);
}

/// After a probe that was answered, no later step of the run is the probe
/// and none gives up with `NotDetected`.
proof fn lemma_probe_answered(exs: Seq<Seq<UartEvent>>)
    requires
        init_run_valid(exs),
        exs.len() >= 1,
        reply_setting(command_reply(exs[0])) is Some,
    ensures
        init_run_stage(exs) != InitStage::Probe,
        init_run_stage(exs) != InitStage::Done(Err(ScannerError::NotDetected)),
    decreases exs.len(),
{
    if exs.len() == 1 {
        assert(exs.drop_last() =~= Seq::<Seq<UartEvent>>::empty());
    } else {
        assert(exs.drop_last()[0] == exs[0]);
        lemma_probe_answered(exs.drop_last());
    }
}

/// An initialisation run gives up with `NotDetected` exactly when the probe,
/// its first exchange, got no setting value back; the run then made no
/// other exchange.
pub proof fn lemma_init_not_detected(exs: Seq<Seq<UartEvent>>)
    requires
        init_run_valid(exs),
        init_run_stage(exs) is Done,
    ensures
        exs.len() >= 1,
        (init_run_stage(exs) == InitStage::Done(Err(ScannerError::NotDetected))) == (reply_setting(
            command_reply(exs[0]),
        ) is None),
        reply_setting(command_reply(exs[0])) is None ==> exs.len() == 1,
{
    if reply_setting(command_reply(exs[0])) is Some {
        lemma_probe_answered(exs);
    } else {
        if exs.len() > 1 {
            lemma_probe_failed_stops(exs);
        } else {
            assert(exs.drop_last() =~= Seq::<Seq<UartEvent>>::empty());
        }
    }
}

/// A run whose probe got no value back cannot go on past it.
proof fn lemma_probe_failed_stops(exs: Seq<Seq<UartEvent>>)
    requires
        init_run_valid(exs),
        exs.len() >= 1,
        reply_setting(command_reply(exs[0])) is None,
    ensures
        exs.len() == 1,
        init_run_stage(exs) == InitStage::Done(Err(ScannerError::NotDetected)),
    decreases exs.len(),
{
    if exs.len() == 1 {
        assert(exs.drop_last() =~= Seq::<Seq<UartEvent>>::empty());
    } else {
        assert(exs.drop_last()[0] == exs[0]);
        lemma_probe_failed_stops(exs.drop_last());
    }
}

/// The serial-mode register ends in UART mode: after reading it, init
/// either rewrites it with its two mode bits cleared and every other bit
/// kept (when a mode bit was set), or leaves it as read (when both were
/// clear); the rewrite is the set-setting command `7E 00 08 01 00 0D v AB CD`.
pub proof fn lemma_serial_mode_to_uart(reply: Option<Seq<u8>>)
    ensures
        match next_init_stage(InitStage::ReadSerial, reply) {
            InitStage::WriteSerial(w) => reply_setting(reply) matches Some(v) && v & 0x03 != 0 && w
                & 0x03 == 0 && w & 0xFC == v & 0xFC,
            InitStage::ReadSetting(i) => i == 0 && (reply_setting(reply) matches Some(v) && v & 0x03
                == 0),
            InitStage::Done(r) => reply_setting(reply) is None && r == Err::<
                ScannerModel,
                ScannerError,
            >(ScannerError::ConfigFailed),
            _ => false,
        },
        forall|w: u8|
            #[trigger] init_stage_command(InitStage::WriteSerial(w)) == seq![
                0x7Eu8,
                0x00,
                0x08,
                0x01,
                0x00,
                0x0D,
                w,
                0xAB,
                0xCD,
            ],
{
    if let Some(v) = reply_setting(reply) {
        assert((v & 0xFC) & 0x03 == 0 && (v & 0xFC) & 0xFC == v & 0xFC) by (bit_vector);
    }
    assert forall|w: u8| #[trigger] init_stage_command(InitStage::WriteSerial(w)) == seq![
        0x7Eu8,
        0x00,
        0x08,
        0x01,
        0x00,
        0x0D,
        w,
        0xAB,
        0xCD,
    ] by {
        assert(init_stage_command(InitStage::WriteSerial(w)) =~= seq![
            0x7Eu8,
            0x00,
            0x08,
            0x01,
            0x00,
            0x0D,
            w,
            0xAB,
            0xCD,
        ]);
    }
}

/// The bytes each initialisation step writes: reads of the serial-mode
/// register 0x000D, of the scan settings (command mode 0x0000 to 0xD1, no
/// timeout at 0x0006, interval 0x0005 to 0x01, same-barcode delay 0x0013 to
/// 0x85, bar types 0x002C to 0x01, QR 0x003F to 0x01), of the version
/// 0x00E2 and of RAW mode 0x00BC (written 0x08), the EEPROM save, and the
/// switch of register 0x002A to 115200 bps.
pub proof fn lemma_init_commands()
    ensures
        init_stage_command(InitStage::Probe) == seq![0x7Eu8, 0x00, 0x07, 0x01, 0x00, 0x0D, 0x01, 0xAB, 0xCD],
        init_stage_command(InitStage::ReadSerial) == seq![0x7Eu8, 0x00, 0x07, 0x01, 0x00, 0x0D, 0x01, 0xAB, 0xCD],
        init_stage_command(InitStage::ReadSetting(0)) == seq![0x7Eu8, 0x00, 0x07, 0x01, 0x00, 0x00, 0x01, 0xAB, 0xCD],
        init_stage_command(InitStage::WriteSetting(0)) == seq![0x7Eu8, 0x00, 0x08, 0x01, 0x00, 0x00, 0xD1, 0xAB, 0xCD],
        init_stage_command(InitStage::ReadSetting(1)) == seq![0x7Eu8, 0x00, 0x07, 0x01, 0x00, 0x06, 0x01, 0xAB, 0xCD],
        init_stage_command(InitStage::WriteSetting(1)) == seq![0x7Eu8, 0x00, 0x08, 0x01, 0x00, 0x06, 0x00, 0xAB, 0xCD],
        init_stage_command(InitStage::ReadSetting(2)) == seq![0x7Eu8, 0x00, 0x07, 0x01, 0x00, 0x05, 0x01, 0xAB, 0xCD],
        init_stage_command(InitStage::WriteSetting(2)) == seq![0x7Eu8, 0x00, 0x08, 0x01, 0x00, 0x05, 0x01, 0xAB, 0xCD],
        init_stage_command(InitStage::ReadSetting(3)) == seq![0x7Eu8, 0x00, 0x07, 0x01, 0x00, 0x13, 0x01, 0xAB, 0xCD],
        init_stage_command(InitStage::WriteSetting(3)) == seq![0x7Eu8, 0x00, 0x08, 0x01, 0x00, 0x13, 0x85, 0xAB, 0xCD],
        init_stage_command(InitStage::ReadSetting(4)) == seq![0x7Eu8, 0x00, 0x07, 0x01, 0x00, 0x2C, 0x01, 0xAB, 0xCD],
        init_stage_command(InitStage::WriteSetting(4)) == seq![0x7Eu8, 0x00, 0x08, 0x01, 0x00, 0x2C, 0x01, 0xAB, 0xCD],
        init_stage_command(InitStage::ReadSetting(5)) == seq![0x7Eu8, 0x00, 0x07, 0x01, 0x00, 0x3F, 0x01, 0xAB, 0xCD],
        init_stage_command(InitStage::WriteSetting(5)) == seq![0x7Eu8, 0x00, 0x08, 0x01, 0x00, 0x3F, 0x01, 0xAB, 0xCD],
        init_stage_command(InitStage::ReadVersion) == seq![0x7Eu8, 0x00, 0x07, 0x01, 0x00, 0xE2, 0x01, 0xAB, 0xCD],
        init_stage_command(InitStage::ReadRaw) == seq![0x7Eu8, 0x00, 0x07, 0x01, 0x00, 0xBC, 0x01, 0xAB, 0xCD],
        init_stage_command(InitStage::WriteRaw) == seq![0x7Eu8, 0x00, 0x08, 0x01, 0x00, 0xBC, 0x08, 0xAB, 0xCD],
        init_stage_command(InitStage::Save) == seq![0x7Eu8, 0x00, 0x09, 0x01, 0x00, 0x00, 0x00, 0xDE, 0xC8],
        init_stage_command(InitStage::Baud) == seq![0x7Eu8, 0x00, 0x08, 0x02, 0x00, 0x2A, 0x1A, 0x00, 0xAB, 0xCD],
{
    assert(init_stage_command(InitStage::Probe) =~= seq![0x7Eu8, 0x00, 0x07, 0x01, 0x00, 0x0D, 0x01, 0xAB, 0xCD]);
    assert(init_stage_command(InitStage::ReadSerial) =~= seq![0x7Eu8, 0x00, 0x07, 0x01, 0x00, 0x0D, 0x01, 0xAB, 0xCD]);
    assert(init_stage_command(InitStage::ReadSetting(0)) =~= seq![0x7Eu8, 0x00, 0x07, 0x01, 0x00, 0x00, 0x01, 0xAB, 0xCD]);
    assert(init_stage_command(InitStage::WriteSetting(0)) =~= seq![0x7Eu8, 0x00, 0x08, 0x01, 0x00, 0x00, 0xD1, 0xAB, 0xCD]);
    assert(init_stage_command(InitStage::ReadSetting(1)) =~= seq![0x7Eu8, 0x00, 0x07, 0x01, 0x00, 0x06, 0x01, 0xAB, 0xCD]);
    assert(init_stage_command(InitStage::WriteSetting(1)) =~= seq![0x7Eu8, 0x00, 0x08, 0x01, 0x00, 0x06, 0x00, 0xAB, 0xCD]);
    assert(init_stage_command(InitStage::ReadSetting(2)) =~= seq![0x7Eu8, 0x00, 0x07, 0x01, 0x00, 0x05, 0x01, 0xAB, 0xCD]);
    assert(init_stage_command(InitStage::WriteSetting(2)) =~= seq![0x7Eu8, 0x00, 0x08, 0x01, 0x00, 0x05, 0x01, 0xAB, 0xCD]);
    assert(init_stage_command(InitStage::ReadSetting(3)) =~= seq![0x7Eu8, 0x00, 0x07, 0x01, 0x00, 0x13, 0x01, 0xAB, 0xCD]);
    assert(init_stage_command(InitStage::WriteSetting(3)) =~= seq![0x7Eu8, 0x00, 0x08, 0x01, 0x00, 0x13, 0x85, 0xAB, 0xCD]);
    assert(init_stage_command(InitStage::ReadSetting(4)) =~= seq![0x7Eu8, 0x00, 0x07, 0x01, 0x00, 0x2C, 0x01, 0xAB, 0xCD]);
    assert(init_stage_command(InitStage::WriteSetting(4)) =~= seq![0x7Eu8, 0x00, 0x08, 0x01, 0x00, 0x2C, 0x01, 0xAB, 0xCD]);
    assert(init_stage_command(InitStage::ReadSetting(5)) =~= seq![0x7Eu8, 0x00, 0x07, 0x01, 0x00, 0x3F, 0x01, 0xAB, 0xCD]);
    assert(init_stage_command(InitStage::WriteSetting(5)) =~= seq![0x7Eu8, 0x00, 0x08, 0x01, 0x00, 0x3F, 0x01, 0xAB, 0xCD]);
    assert(init_stage_command(InitStage::ReadVersion) =~= seq![0x7Eu8, 0x00, 0x07, 0x01, 0x00, 0xE2, 0x01, 0xAB, 0xCD]);
    assert(init_stage_command(InitStage::ReadRaw) =~= seq![0x7Eu8, 0x00, 0x07, 0x01, 0x00, 0xBC, 0x01, 0xAB, 0xCD]);
    assert(init_stage_command(InitStage::WriteRaw) =~= seq![0x7Eu8, 0x00, 0x08, 0x01, 0x00, 0xBC, 0x08, 0xAB, 0xCD]);
    assert(init_stage_command(InitStage::Save) =~= seq![0x7Eu8, 0x00, 0x09, 0x01, 0x00, 0x00, 0x00, 0xDE, 0xC8]);
    assert(init_stage_command(InitStage::Baud) =~= seq![0x7Eu8, 0x00, 0x08, 0x02, 0x00, 0x2A, 0x1A, 0x00, 0xAB, 0xCD]);
}

/// RAW mode is turned on exactly for firmware version 0x69 whose RAW-mode
/// register does not already read 0x08; otherwise init goes on to save.
/// The settings are read back in register order and each is rewritten only
/// when it differs from the wanted value; after the sixth comes the version.
pub proof fn lemma_init_decisions(reply: Option<Seq<u8>>, i: nat)
    ensures
        (next_init_stage(InitStage::ReadVersion, reply) == InitStage::ReadRaw) == (reply_setting(
            reply,
        ) == Some(0x69u8)),
        next_init_stage(InitStage::ReadVersion, reply) != InitStage::ReadRaw ==> next_init_stage(
            InitStage::ReadVersion,
            reply,
        ) == InitStage::Save,
        (next_init_stage(InitStage::ReadRaw, reply) == InitStage::WriteRaw) == (reply_setting(
            reply,
        ) matches Some(v) && v != 0x08u8),
        next_init_stage(InitStage::WriteRaw, reply) == InitStage::Save,
        next_init_stage(InitStage::Save, reply) == InitStage::Baud,
        next_init_stage(InitStage::Baud, reply) == InitStage::Done(
            Ok::<ScannerModel, ScannerError>(ScannerModel::Gm65),
        ),
        i < 6 ==> (next_init_stage(InitStage::ReadSetting(i), reply) == InitStage::WriteSetting(i))
            == (reply_setting(reply) matches Some(x) && x != init_setting(i).1),
        i < 5 && reply_setting(reply) == Some(init_setting(i).1) ==> next_init_stage(
            InitStage::ReadSetting(i),
            reply,
        ) == InitStage::ReadSetting(i + 1),
        reply_setting(reply) == Some(init_setting(5).1) ==> next_init_stage(
            InitStage::ReadSetting(5),
            reply,
        ) == InitStage::ReadVersion,
{
}

/// A run that reached `Done(r)` witnesses `init_transcript`.
proof fn lemma_init_witness(
    base: Seq<UartEvent>,
    after: Seq<UartEvent>,
    exs: Seq<Seq<UartEvent>>,
    r: Result<ScannerModel, ScannerError>,
)
    requires
        init_run_valid(exs),
        init_run_stage(exs) == InitStage::Done(r),
        after == base + concat_all(exs),
    ensures
        init_transcript(base, after, r),
{
}

/// The transcript after `reads`, seen from `t0`.
proof fn lemma_scan_tail(t0: Seq<UartEvent>, reads: Seq<UartEvent>)
    ensures
        t0.is_prefix_of(t0 + reads),
        (t0 + reads).skip(t0.len() as int) == reads,
{
    assert((t0 + reads).skip(t0.len() as int) =~= reads);
    assert(t0 =~= (t0 + reads).subrange(0, t0.len() as int));
}

/// The transcript after a write `w` and then `reads`, seen from `t0`.
proof fn lemma_exchange_tail(t0: Seq<UartEvent>, w: UartEvent, reads: Seq<UartEvent>)
    ensures
        t0.is_prefix_of(t0.push(w) + reads),
        (t0.push(w) + reads).skip(t0.len() as int).len() == reads.len() + 1,
        (t0.push(w) + reads).skip(t0.len() as int)[0] == w,
        (t0.push(w) + reads).skip(t0.len() as int).skip(1) == reads,
{
    let all = t0.push(w) + reads;
    assert(all.skip(t0.len() as int) =~= seq![w] + reads);
    assert((seq![w] + reads).skip(1) =~= reads);
    assert(t0 =~= all.subrange(0, t0.len() as int));
}

fn build_factory_reset() -> (cmd: [u8; 9])
    ensures
        cmd@ == seq![0x7Eu8, 0x00, 0x08, 0x01, 0x00, 0xD9, 0x55, 0xAB, 0xCD],
{
    let cmd = [0x7E, 0x00, 0x08, 0x01, 0x00, 0xD9, 0x55, 0xAB, 0xCD];
    assert(cmd@ =~= seq![0x7Eu8, 0x00, 0x08, 0x01, 0x00, 0xD9, 0x55, 0xAB, 0xCD]);
    cmd
}

} // verus!
