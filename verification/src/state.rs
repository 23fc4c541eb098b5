//! Swap progress of the device application.
use vstd::prelude::*;

verus! {

/// Where the device is in the swap flow.
#[derive(Debug, Clone, Copy, PartialEq, Eq, Structural)]
pub enum SwapState {
    Idle,
    TokenImported,
    BlindedGenerated,
    ProofsReady,
}

impl Default for SwapState {
    fn default() -> (s: Self)
        ensures
            s == SwapState::Idle,
    {
        SwapState::Idle
    }
}

} // verus!
