use micronuts::firmware_state::{ScannerInfo, SwapState as FirmwareSwapState};
use micronuts::qr::driver::{ScannerModel, ScannerState};
use micronuts::state::SwapState;

#[test]
fn test_swap_state_equality() {
    assert_eq!(SwapState::Idle, SwapState::Idle);
    assert_eq!(SwapState::TokenImported, SwapState::TokenImported);
    assert_ne!(SwapState::Idle, SwapState::TokenImported);
    assert_ne!(SwapState::BlindedGenerated, SwapState::ProofsReady);
}

#[test]
fn test_swap_state_copy() {
    let s = SwapState::BlindedGenerated;
    let s2 = s;
    assert_eq!(s, s2);
}

#[test]
fn swap_state_defaults_to_idle() {
    assert_eq!(SwapState::default(), SwapState::Idle);
}

#[test]
fn scanner_info_default_is_unknown_and_disconnected() {
    let info = ScannerInfo::default();
    assert_eq!(info.model, ScannerModel::Unknown);
    assert_eq!(info.state, ScannerState::Uninitialized);
    assert_eq!(info.last_scan_len, None);
    assert!(!info.connected);
    assert_ne!(FirmwareSwapState::Idle, FirmwareSwapState::ProofsReady);
}
