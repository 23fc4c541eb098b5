use micronuts::app_flow::{
    aim_button, back_button, home_buttons, AppFlow, AppScreen, Effect, MAX_SCAN_RETRIES,
    SCAN_TIMEOUT_TICKS,
};
use micronuts::protocol::Command;
use micronuts::state::SwapState;

const SCAN_BTN: (u16, u16) = (60, 150);
const IMPORT_BTN: (u16, u16) = (60, 350);
const PROOFS_BTN: (u16, u16) = (60, 550);
const BACK_BTN: (u16, u16) = (20, 20);
const AIM_BTN: (u16, u16) = (400, 20);

fn tap(flow: &mut AppFlow, p: (u16, u16)) -> Vec<Effect> {
    let fx = flow.tick(false, Some(p), SwapState::Idle);
    flow.tick(false, None, SwapState::Idle);
    fx
}

#[test]
fn buttons_hit_inside_only() {
    let b = home_buttons();
    assert!(b[0].hit(40, 100));
    assert!(b[0].hit(439, 219));
    assert!(!b[0].hit(440, 150));
    assert!(!b[0].hit(39, 150));
    assert!(!b[0].hit(100, 220));
    assert!(b[1].hit(100, 300));
    assert!(b[2].hit(100, 619));
    assert!(back_button().hit(10, 8));
    assert!(!back_button().hit(130, 8));
    assert!(aim_button().hit(310, 43));
    assert!(!aim_button().hit(309, 20));
}

#[test]
fn start_draws_home() {
    let (flow, fx) = AppFlow::start(true);
    assert_eq!(flow.screen, AppScreen::Home);
    assert_eq!(
        fx,
        vec![Effect::RenderHome { scanner_connected: true, has_scan: false }, Effect::SwapBuffers]
    );
}

#[test]
fn scan_button_starts_scanning_and_held_touch_is_ignored() {
    let (mut flow, _) = AppFlow::start(true);
    let fx = flow.tick(false, Some(SCAN_BTN), SwapState::Idle);
    assert_eq!(flow.screen, AppScreen::Scanning);
    assert!(flow.aim_on);
    assert_eq!(
        fx,
        vec![
            Effect::ClearScan,
            Effect::SetAim(true),
            Effect::Trigger,
            Effect::DrawScanning { aim_on: true },
            Effect::DrawScanningProgress { step: 0, total: 10 },
            Effect::SwapBuffers,
        ]
    );
    // Still pressed, now over the back button: nothing happens.
    let fx = flow.tick(false, Some(BACK_BTN), SwapState::Idle);
    assert!(fx.is_empty());
    assert_eq!(flow.screen, AppScreen::Scanning);
    assert_eq!(flow.scan_ticks, 1);
}

#[test]
fn delivered_scan_is_kept_and_shown() {
    let (mut flow, _) = AppFlow::start(true);
    tap(&mut flow, SCAN_BTN);
    let fx = flow.tick(true, None, SwapState::Idle);
    assert_eq!(flow.screen, AppScreen::ScanResult);
    assert!(!flow.aim_on);
    assert!(flow.has_scan);
    assert_eq!(
        fx,
        vec![Effect::SetAim(false), Effect::StoreScan, Effect::RenderDecodedScan, Effect::SwapBuffers]
    );
    let fx = tap(&mut flow, BACK_BTN);
    assert_eq!(flow.screen, AppScreen::Home);
    assert_eq!(
        fx,
        vec![
            Effect::SetAim(false),
            Effect::Stop,
            Effect::RenderHome { scanner_connected: true, has_scan: true },
            Effect::SwapBuffers,
        ]
    );
    // With a scan kept, import shows it again.
    let fx = tap(&mut flow, IMPORT_BTN);
    assert_eq!(flow.screen, AppScreen::ScanResult);
    assert_eq!(fx, vec![Effect::RenderDecodedScan, Effect::SwapBuffers]);
}

#[test]
fn progress_redraws_every_step() {
    let (mut flow, _) = AppFlow::start(false);
    tap(&mut flow, SCAN_BTN);
    assert_eq!(flow.scan_ticks, 1);
    let mut steps = Vec::new();
    for _ in 1..400 {
        let fx = flow.tick(false, None, SwapState::Idle);
        if !fx.is_empty() {
            let step = flow.scan_ticks / 200;
            steps.push(step);
            assert_eq!(
                fx,
                vec![
                    Effect::DrawScanning { aim_on: true },
                    Effect::DrawScanningProgress { step, total: 10 },
                    Effect::SwapBuffers,
                ]
            );
        }
    }
    assert_eq!(flow.scan_ticks, 400);
    assert_eq!(steps, vec![1, 2]);
}

#[test]
fn unanswered_scan_retries_then_returns_home() {
    let (mut flow, _) = AppFlow::start(true);
    tap(&mut flow, SCAN_BTN);
    let mut ticks: u32 = 1; // the release tick of the tap
    let mut triggers = 0;
    loop {
        let fx = flow.tick(false, None, SwapState::Idle);
        ticks += 1;
        triggers += fx.iter().filter(|e| **e == Effect::Trigger).count();
        if flow.screen == AppScreen::Home {
            assert!(fx.ends_with(&[
                Effect::SetAim(false),
                Effect::Stop,
                Effect::RenderHome { scanner_connected: true, has_scan: false },
                Effect::SwapBuffers,
            ]));
            break;
        }
        assert!(flow.scan_ticks <= SCAN_TIMEOUT_TICKS);
        assert!(flow.scan_retries < MAX_SCAN_RETRIES);
    }
    assert_eq!(ticks, MAX_SCAN_RETRIES * (SCAN_TIMEOUT_TICKS + 1));
    assert_eq!(triggers as u32, MAX_SCAN_RETRIES - 1);
    assert!(!flow.aim_on);
    assert_eq!(flow.scan_retries, 0);
}

#[test]
fn aim_button_toggles_laser() {
    let (mut flow, _) = AppFlow::start(true);
    tap(&mut flow, SCAN_BTN);
    let fx = tap(&mut flow, AIM_BTN);
    assert!(!flow.aim_on);
    assert_eq!(
        fx,
        vec![
            Effect::SetAim(false),
            Effect::DrawScanning { aim_on: false },
            Effect::DrawScanningProgress { step: 0, total: 10 },
            Effect::SwapBuffers,
        ]
    );
    tap(&mut flow, AIM_BTN);
    assert!(flow.aim_on);
}

#[test]
fn import_waits_for_token_until_host_imports() {
    let (mut flow, _) = AppFlow::start(true);
    let fx = tap(&mut flow, IMPORT_BTN);
    assert_eq!(flow.screen, AppScreen::WaitingToken);
    assert_eq!(fx, vec![Effect::RenderWaitingToken, Effect::SwapBuffers]);
    let fx = flow.on_frame(Command::GetTokenInfo);
    assert!(fx.is_empty());
    assert_eq!(flow.screen, AppScreen::WaitingToken);
    let fx = flow.on_frame(Command::ImportToken);
    assert_eq!(fx, vec![Effect::SwapBuffers]);
    assert_eq!(flow.screen, AppScreen::TokenInfo);
}

#[test]
fn scanner_trigger_frame_forgets_last_scan() {
    let (mut flow, _) = AppFlow::start(true);
    tap(&mut flow, SCAN_BTN);
    flow.tick(true, None, SwapState::Idle);
    assert!(flow.has_scan);
    let fx = flow.on_frame(Command::ScannerTrigger);
    assert!(!flow.has_scan);
    assert_eq!(fx, vec![Effect::ClearScan, Effect::SwapBuffers]);
    assert_eq!(flow.screen, AppScreen::ScanResult);
}

#[test]
fn show_proofs_needs_ready_proofs() {
    let (mut flow, _) = AppFlow::start(false);
    let fx = tap(&mut flow, PROOFS_BTN);
    assert_eq!(flow.screen, AppScreen::Home);
    assert_eq!(
        fx,
        vec![
            Effect::RenderNoProofs,
            Effect::RenderHome { scanner_connected: false, has_scan: false },
            Effect::SwapBuffers,
        ]
    );
    let fx = flow.tick(false, Some(PROOFS_BTN), SwapState::ProofsReady);
    assert_eq!(flow.screen, AppScreen::ShowProofs);
    assert_eq!(fx, vec![Effect::RenderExportQr, Effect::SwapBuffers]);
}

#[test]
fn scan_data_request_hands_the_scan_over() {
    let (mut flow, _) = AppFlow::start(true);
    tap(&mut flow, SCAN_BTN);
    flow.tick(true, None, SwapState::Idle);
    assert!(flow.has_scan);
    let fx = flow.on_frame(Command::ScannerData);
    assert_eq!(fx, vec![Effect::SwapBuffers]);
    assert!(!flow.has_scan);
    tap(&mut flow, BACK_BTN);
    let fx = tap(&mut flow, IMPORT_BTN);
    assert_eq!(flow.screen, AppScreen::WaitingToken);
    assert_eq!(fx, vec![Effect::RenderWaitingToken, Effect::SwapBuffers]);
}
