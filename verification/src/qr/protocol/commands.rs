//! Factory functions for common GM65 commands.
use vstd::prelude::*;

use super::{
    command_bytes, frame_valid, spec_crc, BaudRate, Gm65CommandBuilder, Register, baud_value, CMD_SET_PARAM,
};

verus! {

/// Builds the factory reset command.
pub fn factory_reset() -> (cmd: Vec<u8>)
    ensures
        cmd@ == command_bytes(CMD_SET_PARAM, Register::FactoryReset, seq![0x00u8]),
{
    let b = Gm65CommandBuilder::set(Register::FactoryReset).with_value(0x00);
    assert(b@.value =~= seq![0x00u8]);
    b.build()
}

/// Builds the serial output enable command.
pub fn enable_serial_output() -> (cmd: Vec<u8>)
    ensures
        cmd@ == command_bytes(CMD_SET_PARAM, Register::SerialOutput, seq![0x01u8]),
{
    let b = Gm65CommandBuilder::set(Register::SerialOutput).with_value(0x01);
    assert(b@.value =~= seq![0x01u8]);
    b.build()
}

/// Builds the baud rate change command.
pub fn set_baud_rate(rate: BaudRate) -> (cmd: Vec<u8>)
    ensures
        cmd@ == command_bytes(CMD_SET_PARAM, Register::BaudRate, seq![baud_value(rate)]),
{
    let b = Gm65CommandBuilder::set(Register::BaudRate).with_value(rate.value());
    assert(b@.value =~= seq![baud_value(rate)]);
    b.build()
}

/// Builds the RAW mode enable command (needed for binary data).
pub fn enable_raw_mode() -> (cmd: Vec<u8>)
    ensures
        cmd@ == command_bytes(CMD_SET_PARAM, Register::RawMode, seq![0x08u8]),
{
    let b = Gm65CommandBuilder::set(Register::RawMode).with_value(0x08);
    assert(b@.value =~= seq![0x08u8]);
    b.build()
}

/// Builds the QR-only mode command (disables 1D barcodes).
pub fn set_qr_only() -> (cmd: Vec<u8>)
    ensures
        cmd@ == command_bytes(CMD_SET_PARAM, Register::QrOnly, seq![0x01u8]),
{
    let b = Gm65CommandBuilder::set(Register::QrOnly).with_value(0x01);
    assert(b@.value =~= seq![0x01u8]);
    b.build()
}

/// Builds the version query command: type `01`, length `00`, address byte
/// `01`, then the XOR checksum (`00`) and the footer.
pub fn query_version() -> (cmd: Vec<u8>)
    ensures
        cmd@ == seq![0x7Eu8, 0x00, 0x01, 0x00, 0x01, 0x00, 0x55],
        frame_valid(cmd@),
{
    let cmd = vec![0x7E, 0x00, 0x01, 0x00, 0x01, 0x00, 0x55];
    assert(cmd@ =~= seq![0x7Eu8, 0x00, 0x01, 0x00, 0x01, 0x00, 0x55]);
    proof {
        let body = cmd@.subrange(2, 5);
        assert(body =~= seq![0x01u8, 0x00, 0x01]);
        assert(body.drop_last().drop_last().drop_last() =~= Seq::<u8>::empty());
        assert(body.drop_last().drop_last() =~= seq![0x01u8]);
        assert(body.drop_last() =~= seq![0x01u8, 0x00]);
        reveal_with_fuel(spec_crc, 4);
        assert(0u8 ^ 0x01u8 == 0x01u8) by (bit_vector);
        assert(0x01u8 ^ 0x00u8 == 0x01u8) by (bit_vector);
        assert(0x01u8 ^ 0x01u8 == 0x00u8) by (bit_vector);
    }
    cmd
}

/// Builds the scan trigger command (for command-triggered mode).
pub fn trigger_scan() -> (cmd: Vec<u8>)
    ensures
        cmd@ == seq![0x7Eu8, 0x00, 0x04, 0x00, 0x04, 0x00, 0x55],
{
    let cmd = vec![0x7E, 0x00, 0x04, 0x00, 0x04, 0x00, 0x55];
    assert(cmd@ =~= seq![0x7Eu8, 0x00, 0x04, 0x00, 0x04, 0x00, 0x55]);
    cmd
}

} // verus!
