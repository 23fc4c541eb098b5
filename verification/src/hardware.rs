//! Plain values the device's hardware hands the application: touches and
//! scanner faults.
use vstd::prelude::*;

verus! {

/// One touch-panel reading.
#[derive(Debug, Clone, Copy, PartialEq, Eq, Structural)]
pub struct TouchPoint {
    pub x: u16,
    pub y: u16,
    pub detected: bool,
}

/// Why a scanner operation failed.
#[derive(Debug, Clone, Copy, PartialEq, Eq, Structural)]
pub enum ScanError {
    NotConnected,
    NotReady,
    IoError,
}

} // verus!
