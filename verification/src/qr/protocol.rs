//! GM65 scanner command protocol.
//!
//! All commands follow `[Header:2][Type:1][Length:1][Address:2][Value:N][CRC:1][Footer:1]`
//! with header `7E 00`, footer `55`, and a CRC that XORs every byte from the
//! type field to the end of the value.
use vstd::prelude::*;

use crate::bytes::append_bytes;

pub mod commands;

verus! {

/// GM65 command header bytes.
pub const HEADER: [u8; 2] = [0x7E, 0x00];

/// GM65 command footer byte.
pub const FOOTER: u8 = 0x55;

/// GM65 command type for setting parameters.
pub const CMD_SET_PARAM: u8 = 0x08;

/// GM65 command type for reading parameters.
pub const CMD_GET_PARAM: u8 = 0x07;

/// GM65 command type for querying version.
pub const CMD_QUERY_VERSION: u8 = 0x01;

/// Register addresses for GM65 configuration.
#[derive(Debug, Clone, Copy, PartialEq, Eq, Structural)]
pub enum Register {
    /// Serial output enable (0x0000)
    SerialOutput,
    /// Baud rate setting (0x002A)
    BaudRate,
    /// RAW mode enable (0x00BC), needed for binary data
    RawMode,
    /// Factory reset (0x00D9)
    FactoryReset,
    /// Scan mode setting (0x0001)
    ScanMode,
    /// QR code only mode (0x0002)
    QrOnly,
    /// Scan interval (0x0003)
    ScanInterval,
}

/// 16-bit address of a register.
pub open spec fn register_address(r: Register) -> u16 {
    match r {
        Register::SerialOutput => 0x0000,
        Register::BaudRate => 0x002A,
        Register::RawMode => 0x00BC,
        Register::FactoryReset => 0x00D9,
        Register::ScanMode => 0x0001,
        Register::QrOnly => 0x0002,
        Register::ScanInterval => 0x0003,
    }
}

/// Address bytes of a register, high byte first.
pub open spec fn register_address_bytes(r: Register) -> Seq<u8> {
    seq![(register_address(r) / 256) as u8, (register_address(r) % 256) as u8]
}

impl Register {
    /// The 2-byte address of this register, high byte first.
    pub fn address_bytes(&self) -> (bytes: [u8; 2])
        ensures
            bytes@ == register_address_bytes(*self),
    {
        let addr: u16 = match self {
            Register::SerialOutput => 0x0000,
            Register::BaudRate => 0x002A,
            Register::RawMode => 0x00BC,
            Register::FactoryReset => 0x00D9,
            Register::ScanMode => 0x0001,
            Register::QrOnly => 0x0002,
            Register::ScanInterval => 0x0003,
        };
        assert((addr >> 8) as u8 == (addr / 256) as u8) by (bit_vector);
        assert((addr & 0xFF) as u8 == (addr % 256) as u8) by (bit_vector);
        let bytes = [(addr >> 8) as u8, (addr & 0xFF) as u8];
        assert(bytes@ =~= register_address_bytes(*self));
        bytes
    }
}

/// Each register is addressed by its documented 16-bit address, high byte
/// first: serial output 0x0000, baud rate 0x002A, RAW mode 0x00BC, factory
/// reset 0x00D9, scan mode 0x0001, QR only 0x0002, scan interval 0x0003. No
/// two registers share an address, so a command reaches only its register.
pub proof fn lemma_register_addresses()
    ensures
        register_address_bytes(Register::SerialOutput) == seq![0x00u8, 0x00u8],
        register_address_bytes(Register::BaudRate) == seq![0x00u8, 0x2Au8],
        register_address_bytes(Register::RawMode) == seq![0x00u8, 0xBCu8],
        register_address_bytes(Register::FactoryReset) == seq![0x00u8, 0xD9u8],
        register_address_bytes(Register::ScanMode) == seq![0x00u8, 0x01u8],
        register_address_bytes(Register::QrOnly) == seq![0x00u8, 0x02u8],
        register_address_bytes(Register::ScanInterval) == seq![0x00u8, 0x03u8],
        forall|a: Register, b: Register|
            #[trigger] register_address_bytes(a) == #[trigger] register_address_bytes(b) ==> a
                == b,
{
    assert(register_address_bytes(Register::SerialOutput) =~= seq![0x00u8, 0x00u8]);
    assert(register_address_bytes(Register::BaudRate) =~= seq![0x00u8, 0x2Au8]);
    assert(register_address_bytes(Register::RawMode) =~= seq![0x00u8, 0xBCu8]);
    assert(register_address_bytes(Register::FactoryReset) =~= seq![0x00u8, 0xD9u8]);
    assert(register_address_bytes(Register::ScanMode) =~= seq![0x00u8, 0x01u8]);
    assert(register_address_bytes(Register::QrOnly) =~= seq![0x00u8, 0x02u8]);
    assert(register_address_bytes(Register::ScanInterval) =~= seq![0x00u8, 0x03u8]);
    assert forall|a: Register, b: Register|
        #[trigger] register_address_bytes(a) == #[trigger] register_address_bytes(b) implies a
        == b by {
        assert(register_address_bytes(a)[1] == register_address_bytes(b)[1]);
    }
}

/// Baud rate values for [`Register::BaudRate`].
#[derive(Debug, Clone, Copy, PartialEq, Eq, Structural)]
pub enum BaudRate {
    /// 9600 bps (default)
    Bps9600,
    /// 19200 bps
    Bps19200,
    /// 38400 bps
    Bps38400,
    /// 57600 bps
    Bps57600,
    /// 115200 bps
    Bps115200,
}

/// Register value selecting a baud rate.
pub open spec fn baud_value(b: BaudRate) -> u8 {
    match b {
        BaudRate::Bps9600 => 0x00,
        BaudRate::Bps19200 => 0x01,
        BaudRate::Bps38400 => 0x02,
        BaudRate::Bps57600 => 0x03,
        BaudRate::Bps115200 => 0x1A,
    }
}

/// Line speed of a baud rate in bits per second.
pub open spec fn baud_bps(b: BaudRate) -> u32 {
    match b {
        BaudRate::Bps9600 => 9600,
        BaudRate::Bps19200 => 19200,
        BaudRate::Bps38400 => 38400,
        BaudRate::Bps57600 => 57600,
        BaudRate::Bps115200 => 115200,
    }
}

impl BaudRate {
    /// The register value byte for this baud rate.
    pub fn value(&self) -> (v: u8)
        ensures
            v == baud_value(*self),
    {
        match self {
            BaudRate::Bps9600 => 0x00,
            BaudRate::Bps19200 => 0x01,
            BaudRate::Bps38400 => 0x02,
            BaudRate::Bps57600 => 0x03,
            BaudRate::Bps115200 => 0x1A,
        }
    }

    /// The line speed in bits per second.
    pub fn as_u32(&self) -> (bps: u32)
        ensures
            bps == baud_bps(*self),
    {
        match self {
            BaudRate::Bps9600 => 9600,
            BaudRate::Bps19200 => 19200,
            BaudRate::Bps38400 => 38400,
            BaudRate::Bps57600 => 57600,
            BaudRate::Bps115200 => 115200,
        }
    }
}

/// Each baud rate is selected by its documented register value (9600: 0x00,
/// 19200: 0x01, 38400: 0x02, 57600: 0x03, 115200: 0x1A) and stands for its
/// speed in bits per second; no two rates share a value.
pub proof fn lemma_baud_values()
    ensures
        baud_value(BaudRate::Bps9600) == 0x00u8 && baud_bps(BaudRate::Bps9600) == 9600,
        baud_value(BaudRate::Bps19200) == 0x01u8 && baud_bps(BaudRate::Bps19200) == 19200,
        baud_value(BaudRate::Bps38400) == 0x02u8 && baud_bps(BaudRate::Bps38400) == 38400,
        baud_value(BaudRate::Bps57600) == 0x03u8 && baud_bps(BaudRate::Bps57600) == 57600,
        baud_value(BaudRate::Bps115200) == 0x1Au8 && baud_bps(BaudRate::Bps115200) == 115200,
        forall|a: BaudRate, b: BaudRate| #[trigger] baud_value(a) == #[trigger] baud_value(b) ==> a == b,
{
}

/// XOR of all bytes, folded from the left starting at 0.
pub open spec fn spec_crc(data: Seq<u8>) -> u8
    decreases data.len(),
{
    if data.len() == 0 {
        0
    } else {
        spec_crc(data.drop_last()) ^ data.last()
    }
}

/// Calculates the GM65 CRC: XOR of all bytes of `data`.
pub fn calculate_crc(data: &[u8]) -> (crc: u8)
    ensures
        crc == spec_crc(data@),
{
    let mut acc: u8 = 0;
    let mut i: usize = 0;
    while i < data.len()
        invariant
            i <= data@.len(),
            acc == spec_crc(data@.take(i as int)),
        decreases data@.len() - i,
    {
        assert(data@.take(i + 1).drop_last() =~= data@.take(i as int));
        acc = acc ^ data[i];
        i = i + 1;
    }
    assert(data@.take(i as int) =~= data@);
    acc
}

/// The bytes covered by the CRC: type, length, address and value.
pub open spec fn command_body(cmd_type: u8, register: Register, value: Seq<u8>) -> Seq<u8> {
    seq![cmd_type, ((2 + value.len()) % 256) as u8] + register_address_bytes(register) + value
}

/// Complete command bytes: header, body, CRC and footer.
pub open spec fn command_bytes(cmd_type: u8, register: Register, value: Seq<u8>) -> Seq<u8> {
    let body = command_body(cmd_type, register, value);
    HEADER@ + body + seq![spec_crc(body), FOOTER]
}

/// Abstract command under construction.
pub struct CommandView {
    pub cmd_type: u8,
    pub register: Register,
    pub value: Seq<u8>,
}

/// GM65 command builder.
pub struct Gm65CommandBuilder {
    cmd_type: u8,
    register: Register,
    value: Vec<u8>,
}

impl View for Gm65CommandBuilder {
    type V = CommandView;

    closed spec fn view(&self) -> CommandView {
        CommandView { cmd_type: self.cmd_type, register: self.register, value: self.value@ }
    }
}

impl Gm65CommandBuilder {
    /// Starts a command that sets a parameter.
    pub fn set(register: Register) -> (b: Self)
        ensures
            b@ == (CommandView { cmd_type: CMD_SET_PARAM, register, value: Seq::empty() }),
    {
        Self { cmd_type: CMD_SET_PARAM, register, value: Vec::new() }
    }

    /// Starts a command that reads a parameter.
    pub fn get(register: Register) -> (b: Self)
        ensures
            b@ == (CommandView { cmd_type: CMD_GET_PARAM, register, value: Seq::empty() }),
    {
        Self { cmd_type: CMD_GET_PARAM, register, value: Vec::new() }
    }

    /// Appends a value byte.
    pub fn with_value(self, value: u8) -> (b: Self)
        ensures
            b@ == (CommandView { value: self@.value.push(value), ..self@ }),
    {
        let mut s = self;
        s.value.push(value);
        s
    }

    /// Appends several value bytes.
    pub fn with_values(self, values: &[u8]) -> (b: Self)
        ensures
            b@ == (CommandView { value: self@.value + values@, ..self@ }),
    {
        let mut s = self;
        append_bytes(&mut s.value, values);
        s
    }

    /// Builds the complete command bytes.
    pub fn build(self) -> (cmd: Vec<u8>)
        requires
            self@.value.len() + 8 <= usize::MAX,
        ensures
            cmd@ == command_bytes(self@.cmd_type, self@.register, self@.value),
    {
        let addr = self.register.address_bytes();
        let payload_len = 2 + self.value.len();
        let mut cmd: Vec<u8> = Vec::with_capacity(8 + self.value.len());
        append_bytes(&mut cmd, &HEADER);
        cmd.push(self.cmd_type);
        cmd.push((payload_len % 256) as u8);
        append_bytes(&mut cmd, &addr);
        append_bytes(&mut cmd, self.value.as_slice());
        let crc = calculate_crc(&cmd.as_slice()[2..cmd.len()]);
        let ghost body = command_body(self@.cmd_type, self@.register, self@.value);
        assert(cmd@ =~= HEADER@ + body);
        assert(cmd@.subrange(2, cmd@.len() as int) =~= body);
        cmd.push(crc);
        cmd.push(FOOTER);
        cmd
    }
}

/// Abstract parse result.
pub enum ResponseView {
    Ack,
    Nack(u8),
    Version { major: u8, minor: u8 },
    ParamValue(Seq<u8>),
    Invalid,
}

/// Whether `data` is a well-formed frame: at least 6 bytes, header `7E 00`,
/// footer `55`, and a CRC over everything between the header and the CRC.
pub open spec fn frame_valid(data: Seq<u8>) -> bool {
    &&& data.len() >= 6
    &&& data[0] == HEADER@[0]
    &&& data[1] == HEADER@[1]
    &&& data.last() == FOOTER
    &&& data[data.len() - 2] == spec_crc(data.subrange(2, data.len() - 2))
}

/// Meaning of a response frame.
pub open spec fn spec_parse_response(data: Seq<u8>) -> ResponseView {
    if !frame_valid(data) {
        ResponseView::Invalid
    } else if data[3] == 0x00 {
        ResponseView::Ack
    } else if data[3] == 0xEE {
        ResponseView::Nack(data[4])
    } else {
        ResponseView::ParamValue(data.subrange(4, data.len() - 2))
    }
}

/// Parsed GM65 response.
#[derive(Debug, Clone, PartialEq, Eq)]
pub enum Gm65Response {
    /// Command acknowledged successfully
    Ack,
    /// Command failed with error code
    Nack(u8),
    /// Version information
    Version { major: u8, minor: u8 },
    /// Parameter value read
    ParamValue(Vec<u8>),
    /// Invalid/unknown response
    Invalid,
}

impl View for Gm65Response {
    type V = ResponseView;

    open spec fn view(&self) -> ResponseView {
        match self {
            Gm65Response::Ack => ResponseView::Ack,
            Gm65Response::Nack(c) => ResponseView::Nack(*c),
            Gm65Response::Version { major, minor } => ResponseView::Version {
                major: *major,
                minor: *minor,
            },
            Gm65Response::ParamValue(v) => ResponseView::ParamValue(v@),
            Gm65Response::Invalid => ResponseView::Invalid,
        }
    }
}

impl Gm65Response {
    /// Parses response bytes.
    pub fn parse(data: &[u8]) -> (r: Self)
        ensures
            r@ == spec_parse_response(data@),
    {
        if data.len() < 6 {
            return Gm65Response::Invalid;
        }
        if data[0] != HEADER[0] || data[1] != HEADER[1] {
            return Gm65Response::Invalid;
        }
        if data[data.len() - 1] != FOOTER {
            return Gm65Response::Invalid;
        }
        let expected_crc = calculate_crc(&data[2..data.len() - 2]);
        if data[data.len() - 2] != expected_crc {
            return Gm65Response::Invalid;
        }
        let status = data[3];
        if status == 0x00 {
            Gm65Response::Ack
        } else if status == 0xEE {
            Gm65Response::Nack(data[4])
        } else {
            Gm65Response::ParamValue(crate::bytes::to_vec(&data[4..data.len() - 2]))
        }
    }
}

/// Every command the builder produces is a well-formed frame: header,
/// footer and CRC all check out, so the scanner-side frame check (the same
/// one [`Gm65Response::parse`] applies) never rejects it.
pub proof fn lemma_built_commands_are_valid_frames(cmd_type: u8, register: Register, value: Seq<u8>)
    ensures
        frame_valid(command_bytes(cmd_type, register, value)),
        !(spec_parse_response(command_bytes(cmd_type, register, value)) is Invalid),
{
    let body = command_body(cmd_type, register, value);
    let bytes = command_bytes(cmd_type, register, value);
    assert(bytes.subrange(2, bytes.len() - 2) =~= body);
}

} // verus!
