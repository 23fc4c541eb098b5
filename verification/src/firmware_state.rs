//! Board firmware state: scanner bookkeeping and swap progress.
use vstd::prelude::*;

use crate::qr::driver::{ScannerModel, ScannerState};

verus! {

/// What the firmware knows about the attached scanner.
#[derive(Debug, Clone, Copy, PartialEq, Eq, Structural)]
pub struct ScannerInfo {
    pub model: ScannerModel,
    pub state: ScannerState,
    pub last_scan_len: Option<usize>,
    pub connected: bool,
}

impl Default for ScannerInfo {
    /// No scanner seen yet: unknown model, uninitialized, disconnected.
    fn default() -> (info: Self)
        ensures
            info == (ScannerInfo {
                model: ScannerModel::Unknown,
                state: ScannerState::Uninitialized,
                last_scan_len: None,
                connected: false,
            }),
    {
        Self {
            model: ScannerModel::Unknown,
            state: ScannerState::Uninitialized,
            last_scan_len: None,
            connected: false,
        }
    }
}

/// Where the firmware is in the swap flow.
#[derive(Debug, Clone, Copy, PartialEq, Eq, Structural)]
pub enum SwapState {
    Idle,
    TokenImported,
    BlindedGenerated,
    ProofsReady,
}

} // verus!
