//! Host-side view of the device frame protocol: `[Cmd:1][Len:2 big-endian][Payload]`.
use vstd::prelude::*;

use crate::bytes::{append_bytes, to_vec};

verus! {

pub const CMD_IMPORT_TOKEN: u8 = 0x01;
pub const CMD_GET_TOKEN_INFO: u8 = 0x02;
pub const CMD_GET_BLINDED: u8 = 0x03;
pub const CMD_SEND_SIGNATURES: u8 = 0x04;
pub const CMD_GET_PROOFS: u8 = 0x05;
pub const CMD_SCANNER_STATUS: u8 = 0x10;
pub const CMD_SCANNER_TRIGGER: u8 = 0x11;
pub const CMD_SCANNER_DATA: u8 = 0x12;

pub const STATUS_OK: u8 = 0x00;
pub const STATUS_ERROR: u8 = 0xFF;
pub const STATUS_NO_SCAN_DATA: u8 = 0x12;

/// Wire bytes of a frame; the length field holds the payload length modulo 2^16.
pub open spec fn host_wire(command: u8, payload: Seq<u8>) -> Seq<u8> {
    let len = payload.len() % 65536;
    seq![command, (len / 256) as u8, (len % 256) as u8] + payload
}

/// Abstract frame: command byte and payload.
pub struct HostFrameView {
    pub command: u8,
    pub payload: Seq<u8>,
}

/// Meaning of received bytes: the first frame they hold, if complete.
pub open spec fn host_decode(data: Seq<u8>) -> Option<HostFrameView> {
    if data.len() < 3 {
        None
    } else {
        let len = data[1] * 256 + data[2];
        if data.len() < 3 + len {
            None
        } else {
            Some(HostFrameView { command: data[0], payload: data.subrange(3, 3 + len) })
        }
    }
}

#[derive(Debug, Clone)]
pub struct Frame {
    pub command: u8,
    pub payload: Vec<u8>,
}

impl View for Frame {
    type V = HostFrameView;

    open spec fn view(&self) -> HostFrameView {
        HostFrameView { command: self.command, payload: self.payload@ }
    }
}

impl Frame {
    pub fn new(command: u8, payload: Vec<u8>) -> (f: Self)
        ensures
            f.command == command,
            f.payload == payload,
    {
        Self { command, payload }
    }

    /// Encodes the frame.
    pub fn encode(&self) -> (buf: Vec<u8>)
        ensures
            buf@ == host_wire(self.command, self.payload@),
    {
        let len = (self.payload.len() % 65536) as u16;
        let mut buf: Vec<u8> = Vec::new();
        buf.push(self.command);
        buf.push((len / 256u16) as u8);
        buf.push((len % 256u16) as u8);
        append_bytes(&mut buf, self.payload.as_slice());
        assert(buf@ =~= host_wire(self.command, self.payload@));
        buf
    }

    /// Decodes the first frame in `data`; `None` if it is incomplete.
    pub fn decode(data: &[u8]) -> (r: Option<Self>)
        ensures
            match r {
                Some(f) => host_decode(data@) == Some(f@),
                None => host_decode(data@) is None,
            },
    {
        if data.len() < 3 {
            return None;
        }
        let command = data[0];
        let len = (data[1] as usize) * 256 + (data[2] as usize);
        if data.len() < 3 + len {
            return None;
        }
        Some(Self { command, payload: to_vec(&data[3..3 + len]) })
    }
}

/// Round trip: a frame whose payload fits the 16-bit length field decodes
/// back to itself, whatever bytes follow it.
pub proof fn lemma_host_roundtrip(command: u8, payload: Seq<u8>, rest: Seq<u8>)
    requires
        payload.len() <= 0xFFFF,
    ensures
        host_decode(host_wire(command, payload) + rest) == Some(
            HostFrameView { command, payload },
        ),
{
    let data = host_wire(command, payload) + rest;
    let len = payload.len();
    assert(len % 65536 == len);
    assert(((len / 256) as u8) * 256 + ((len % 256) as u8) == len);
    assert(data.subrange(3, 3 + len as int) =~= payload);
}

} // verus!
