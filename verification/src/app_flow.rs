//! Screen flow of the device application.
//!
//! The application loop waits for either a host frame or a 5 ms poll tick.
//! Everything it decides (which screen is shown, whether the laser aim is
//! on, when a scan times out and is retried, what to draw) lives here as a
//! state machine: the caller performs the returned effects in order, reads
//! the touch panel and the scanner, and hands the readings back.
use vstd::prelude::*;
use crate::protocol::Command;
use crate::state::SwapState;

verus! {

/// Display width in pixels (portrait).
pub const WIDTH: u32 = 480;

/// Display height in pixels (portrait).
pub const HEIGHT: u32 = 800;

/// Poll ticks (5 ms each) per progress step of the scanning screen.
pub const TICKS_PER_STEP: u32 = 200;

/// Poll ticks after which a scan attempt times out (10 s).
pub const SCAN_TIMEOUT_TICKS: u32 = 2000;

/// Scan attempts before the flow gives up and returns home.
pub const MAX_SCAN_RETRIES: u32 = 3;

/// A rectangular touch target.
#[derive(Clone, Copy)]
pub struct Button {
    pub x: u32,
    pub y: u32,
    pub w: u32,
    pub h: u32,
    pub label: &'static str,
}

/// Whether `(tx, ty)` lies in the rectangle at `(x, y)` of size `w` by `h`.
pub open spec fn in_rect(tx: int, ty: int, x: int, y: int, w: int, h: int) -> bool {
    x <= tx < x + w && y <= ty < y + h
}

impl Button {
    /// Whether the touch point `(tx, ty)` falls on the button.
    pub fn hit(&self, tx: u16, ty: u16) -> (r: bool)
        requires
            self.x + self.w <= u32::MAX,
            self.y + self.h <= u32::MAX,
        ensures
            r == in_rect(tx as int, ty as int, self.x as int, self.y as int, self.w as int, self.h as int),
    {
        let tx = tx as u32;
        let ty = ty as u32;
        tx >= self.x && tx < self.x + self.w && ty >= self.y && ty < self.y + self.h
    }
}

/// The three buttons of the home screen: scan, import token, show proofs.
pub fn home_buttons() -> (b: [Button; 3])
    ensures
        b[0].x == 40 && b[0].y == 100 && b[0].w == WIDTH - 80 && b[0].h == 120,
        b[1].x == 40 && b[1].y == 300 && b[1].w == WIDTH - 80 && b[1].h == 120,
        b[2].x == 40 && b[2].y == 500 && b[2].w == WIDTH - 80 && b[2].h == 120,
        b[0].label@ == "SCAN QR CODE"@,
        b[1].label@ == "IMPORT TOKEN"@,
        b[2].label@ == "SHOW PROOFS"@,
{
    [
        Button { x: 40, y: 100, w: WIDTH - 80, h: 120, label: "SCAN QR CODE" },
        Button { x: 40, y: 300, w: WIDTH - 80, h: 120, label: "IMPORT TOKEN" },
        Button { x: 40, y: 500, w: WIDTH - 80, h: 120, label: "SHOW PROOFS" },
    ]
}

/// The back button in the header of every inner screen.
pub fn back_button() -> (b: Button)
    ensures
        b.x == 10 && b.y == 8 && b.w == 120 && b.h == 36,
        b.label@ == "< BACK"@,
{
    Button { x: 10, y: 8, w: 120, h: 36, label: "< BACK" }
}

/// The laser-aim toggle in the header of the scanning screen.
pub fn aim_button() -> (b: Button)
    ensures
        b.x == WIDTH - 170 && b.y == 8 && b.w == 160 && b.h == 36,
        b.label@ == "LASER: OFF"@,
{
    Button { x: WIDTH - 170, y: 8, w: 160, h: 36, label: "LASER: OFF" }
}

/// Touch on the scan button of the home screen.
pub open spec fn hits_scan(x: int, y: int) -> bool {
    in_rect(x, y, 40, 100, 400, 120)
}

/// Touch on the import button of the home screen.
pub open spec fn hits_import(x: int, y: int) -> bool {
    in_rect(x, y, 40, 300, 400, 120)
}

/// Touch on the show-proofs button of the home screen.
pub open spec fn hits_proofs(x: int, y: int) -> bool {
    in_rect(x, y, 40, 500, 400, 120)
}

/// Touch on the back button.
pub open spec fn hits_back(x: int, y: int) -> bool {
    in_rect(x, y, 10, 8, 120, 36)
}

/// Touch on the aim toggle.
pub open spec fn hits_aim(x: int, y: int) -> bool {
    in_rect(x, y, 310, 8, 160, 36)
}

/// Screens of the application.
#[derive(Debug, Clone, Copy, PartialEq, Eq, Structural)]
pub enum AppScreen {
    Home,
    Scanning,
    ScanResult,
    WaitingToken,
    TokenInfo,
    ShowProofs,
}

/// Work the caller performs for the flow, in the order given.
#[derive(Debug, Clone, Copy, PartialEq, Eq, Structural)]
pub enum Effect {
    /// Switch the scanner's aiming laser.
    SetAim(bool),
    /// Start a scan.
    Trigger,
    /// Stop the scanner.
    Stop,
    /// Keep the data the scanner just delivered as the last scan.
    StoreScan,
    /// Forget the last scan.
    ClearScan,
    /// Draw the home screen.
    RenderHome { scanner_connected: bool, has_scan: bool },
    /// Draw the scanning screen with the aim toggle in the given state.
    DrawScanning { aim_on: bool },
    /// Draw the scanning progress bar at `step` of `total`.
    DrawScanningProgress { step: u32, total: u32 },
    /// Draw the retry notice of the scanning screen.
    DrawScanningRetry,
    /// Decode the last scan and draw it.
    RenderDecodedScan,
    /// Draw the waiting-for-token screen.
    RenderWaitingToken,
    /// Draw the proof export QR code.
    RenderExportQr,
    /// Draw the "no proofs available yet" notice.
    RenderNoProofs,
    /// Show the frame just drawn.
    SwapBuffers,
}

/// State of the application flow.
#[derive(Debug, Clone, Copy, PartialEq, Eq, Structural)]
pub struct AppFlow {
    pub screen: AppScreen,
    /// A touch is in progress (touches act once, when they begin).
    pub touch_active: bool,
    /// The scanner's aiming laser is on.
    pub aim_on: bool,
    /// Poll ticks of the current scan attempt.
    pub scan_ticks: u32,
    /// Scan attempts that timed out.
    pub scan_retries: u32,
    /// Whether a scanner answered at start-up.
    pub scanner_connected: bool,
    /// Whether a last scan is kept.
    pub has_scan: bool,
}

impl AppFlow {
    /// Counters stay within their limits: the tick count never passes the
    /// timeout and the retry count stays below the attempt limit.
    pub open spec fn inv(&self) -> bool {
        self.scan_ticks <= SCAN_TIMEOUT_TICKS && self.scan_retries < MAX_SCAN_RETRIES
    }
}

/// The flow after going home: laser off, scanner stopped, counters reset.
pub open spec fn spec_go_home(f: AppFlow) -> (AppFlow, Seq<Effect>) {
    (
        AppFlow { screen: AppScreen::Home, aim_on: false, scan_ticks: 0, scan_retries: 0, ..f },
        seq![
            Effect::SetAim(false),
            Effect::Stop,
            Effect::RenderHome { scanner_connected: f.scanner_connected, has_scan: f.has_scan },
            Effect::SwapBuffers,
        ],
    )
}

/// A new touch at `(x, y)` on the home screen.
pub open spec fn spec_home_touch(f: AppFlow, x: int, y: int, proofs_ready: bool) -> (
    AppFlow,
    Seq<Effect>,
) {
    if hits_scan(x, y) {
        (
            AppFlow {
                screen: AppScreen::Scanning,
                has_scan: false,
                aim_on: true,
                scan_ticks: 0,
                scan_retries: 0,
                ..f
            },
            seq![
                Effect::ClearScan,
                Effect::SetAim(true),
                Effect::Trigger,
                Effect::DrawScanning { aim_on: true },
                Effect::DrawScanningProgress { step: 0, total: 10 },
                Effect::SwapBuffers,
            ],
        )
    } else if hits_import(x, y) {
        if f.has_scan {
            (
                AppFlow { screen: AppScreen::ScanResult, ..f },
                seq![Effect::RenderDecodedScan, Effect::SwapBuffers],
            )
        } else {
            (
                AppFlow { screen: AppScreen::WaitingToken, ..f },
                seq![Effect::RenderWaitingToken, Effect::SwapBuffers],
            )
        }
    } else if hits_proofs(x, y) {
        if proofs_ready {
            (
                AppFlow { screen: AppScreen::ShowProofs, ..f },
                seq![Effect::RenderExportQr, Effect::SwapBuffers],
            )
        } else {
            (
                AppFlow { screen: AppScreen::Home, ..f },
                seq![
                    Effect::RenderNoProofs,
                    Effect::RenderHome { scanner_connected: f.scanner_connected, has_scan: f.has_scan },
                    Effect::SwapBuffers,
                ],
            )
        }
    } else {
        (f, Seq::empty())
    }
}

/// Progress redraw after the tick count of a scan attempt reaches
/// `ticks`: every `TICKS_PER_STEP` ticks the scanning screen and its bar
/// are drawn again.
pub open spec fn progress_effects(ticks: int, aim_on: bool) -> Seq<Effect> {
    if ticks % (TICKS_PER_STEP as int) == 0 {
        seq![
            Effect::DrawScanning { aim_on: aim_on },
            Effect::DrawScanningProgress { step: (ticks / (TICKS_PER_STEP as int)) as u32, total: 10 },
            Effect::SwapBuffers,
        ]
    } else {
        Seq::empty()
    }
}

/// The scanner poll of a tick on the scanning screen: a delivered scan is
/// kept and shown; otherwise the attempt ages by one tick, and a timed-out
/// attempt is retried, or abandoned (the returned flag) once
/// `MAX_SCAN_RETRIES` attempts have timed out.
pub open spec fn spec_scan_poll(f: AppFlow, arrived: bool) -> (AppFlow, Seq<Effect>, bool) {
    if arrived {
        (
            AppFlow {
                screen: AppScreen::ScanResult,
                aim_on: false,
                scan_ticks: 0,
                scan_retries: 0,
                has_scan: true,
                ..f
            },
            seq![
                Effect::SetAim(false),
                Effect::StoreScan,
                Effect::RenderDecodedScan,
                Effect::SwapBuffers,
            ],
            false,
        )
    } else {
        let ticks = f.scan_ticks + 1;
        let progress = progress_effects(ticks, f.aim_on);
        if ticks > SCAN_TIMEOUT_TICKS {
            let retries = f.scan_retries + 1;
            if retries < MAX_SCAN_RETRIES {
                (
                    AppFlow { scan_ticks: 0, scan_retries: retries as u32, ..f },
                    progress + seq![
                        Effect::DrawScanning { aim_on: f.aim_on },
                        Effect::DrawScanningRetry,
                        Effect::SwapBuffers,
                        Effect::Trigger,
                    ],
                    false,
                )
            } else {
                (AppFlow { scan_ticks: 0, scan_retries: retries as u32, ..f }, progress, true)
            }
        } else {
            (AppFlow { scan_ticks: ticks as u32, ..f }, progress, false)
        }
    }
}

/// A new touch at `(x, y)` on the scanning screen: back leaves, the aim
/// button toggles the laser and redraws the screen.
pub open spec fn spec_scanning_touch(f: AppFlow, x: int, y: int) -> (AppFlow, Seq<Effect>, bool) {
    if hits_back(x, y) {
        (f, Seq::empty(), true)
    } else if hits_aim(x, y) {
        (
            AppFlow { aim_on: !f.aim_on, ..f },
            seq![
                Effect::SetAim(!f.aim_on),
                Effect::DrawScanning { aim_on: !f.aim_on },
                Effect::DrawScanningProgress {
                    step: (f.scan_ticks / TICKS_PER_STEP) as u32,
                    total: 10,
                },
                Effect::SwapBuffers,
            ],
            false,
        )
    } else {
        (f, Seq::empty(), false)
    }
}

/// Touch handling shared by every screen: a touch acts only when it
/// begins; lifting the finger re-arms it.
pub open spec fn spec_touch(
    f: AppFlow,
    screen: AppScreen,
    touch: Option<(u16, u16)>,
    proofs_ready: bool,
) -> (AppFlow, Seq<Effect>, bool) {
    match touch {
        None => (AppFlow { touch_active: false, ..f }, Seq::empty(), false),
        Some(p) => {
            if f.touch_active {
                (f, Seq::empty(), false)
            } else {
                let g = AppFlow { touch_active: true, ..f };
                match screen {
                    AppScreen::Home => {
                        let r = spec_home_touch(g, p.0 as int, p.1 as int, proofs_ready);
                        (r.0, r.1, false)
                    },
                    AppScreen::Scanning => spec_scanning_touch(g, p.0 as int, p.1 as int),
                    _ => (g, Seq::empty(), hits_back(p.0 as int, p.1 as int)),
                }
            }
        },
    }
}

/// The scanner poll that opens a tick: only on the scanning screen.
pub open spec fn spec_tick_polled(f: AppFlow, arrived: bool) -> (AppFlow, Seq<Effect>, bool) {
    if f.screen == AppScreen::Scanning {
        spec_scan_poll(f, arrived)
    } else {
        (f, Seq::empty(), false)
    }
}

/// One poll tick. On the scanning screen the scanner is polled first
/// (`arrived` says whether it delivered data); then the touch reading is
/// handled as the screen at the start of the tick dictates; a back touch,
/// or a scan given up, finally returns home.
pub open spec fn spec_tick(
    f: AppFlow,
    arrived: bool,
    touch: Option<(u16, u16)>,
    proofs_ready: bool,
) -> (AppFlow, Seq<Effect>) {
    let screen = f.screen;
    let polled = spec_tick_polled(f, arrived);
    let touched = spec_touch(polled.0, screen, touch, proofs_ready);
    let effects = polled.1 + touched.1;
    if polled.2 || touched.2 {
        let home = spec_go_home(touched.0);
        (home.0, effects + home.1)
    } else {
        (touched.0, effects)
    }
}

/// A host frame, after its command was handled: a trigger forgets the last
/// scan, and so does a scan-data request, whose handler hands the scan to
/// the host; an imported token moves the waiting screen on; commands that
/// draw get their frame shown.
pub open spec fn spec_on_frame(f: AppFlow, command: Command) -> (AppFlow, Seq<Effect>) {
    let cleared = if command == Command::ScannerTrigger || command == Command::ScannerData {
        AppFlow { has_scan: false, ..f }
    } else {
        f
    };
    let moved = if command == Command::ImportToken && f.screen == AppScreen::WaitingToken {
        AppFlow { screen: AppScreen::TokenInfo, ..cleared }
    } else {
        cleared
    };
    let clear_fx = if command == Command::ScannerTrigger {
        seq![Effect::ClearScan]
    } else {
        Seq::empty()
    };
    let draws = command == Command::ImportToken || command == Command::ScannerTrigger || command
        == Command::ScannerData || command == Command::GetBlinded || command
        == Command::SendSignatures;
    (moved, if draws {
        clear_fx.push(Effect::SwapBuffers)
    } else {
        clear_fx
    })
}

fn push_all(v: &mut Vec<Effect>, fx: &[Effect])
    ensures
        final(v)@ == old(v)@ + fx@,
{
    let ghost start = v@;
    let mut i: usize = 0;
    while i < fx.len()
        invariant
            i <= fx@.len(),
            v@ == start + fx@.take(i as int),
        decreases fx@.len() - i,
    {
        v.push(fx[i]);
        assert(fx@.take(i + 1) =~= fx@.take(i as int).push(fx@[i as int]));
        i = i + 1;
    }
    assert(fx@.take(i as int) =~= fx@);
}

impl AppFlow {
    /// The flow at start-up, on the home screen, with the effects that
    /// draw it.
    pub fn start(scanner_connected: bool) -> (r: (AppFlow, Vec<Effect>))
        ensures
            r.0 == (AppFlow {
                screen: AppScreen::Home,
                touch_active: false,
                aim_on: false,
                scan_ticks: 0,
                scan_retries: 0,
                scanner_connected,
                has_scan: false,
            }),
            r.0.inv(),
            r.1@ == seq![
                Effect::RenderHome { scanner_connected, has_scan: false },
                Effect::SwapBuffers,
            ],
    {
        let flow = AppFlow {
            screen: AppScreen::Home,
            touch_active: false,
            aim_on: false,
            scan_ticks: 0,
            scan_retries: 0,
            scanner_connected,
            has_scan: false,
        };
        let mut fx: Vec<Effect> = Vec::new();
        fx.push(Effect::RenderHome { scanner_connected, has_scan: false });
        fx.push(Effect::SwapBuffers);
        assert(fx@ =~= seq![
            Effect::RenderHome { scanner_connected, has_scan: false },
            Effect::SwapBuffers,
        ]);
        (flow, fx)
    }

    fn go_home(&mut self, fx: &mut Vec<Effect>)
        ensures
            *final(self) == spec_go_home(*old(self)).0,
            final(fx)@ == old(fx)@ + spec_go_home(*old(self)).1,
    {
        self.aim_on = false;
        self.screen = AppScreen::Home;
        self.scan_ticks = 0;
        self.scan_retries = 0;
        push_all(
            fx,
            &[
                Effect::SetAim(false),
                Effect::Stop,
                Effect::RenderHome {
                    scanner_connected: self.scanner_connected,
                    has_scan: self.has_scan,
                },
                Effect::SwapBuffers,
            ],
        );
    }

    fn home_touch(&mut self, x: u16, y: u16, proofs_ready: bool, fx: &mut Vec<Effect>)
        ensures
            *final(self) == spec_home_touch(*old(self), x as int, y as int, proofs_ready).0,
            final(fx)@ == old(fx)@ + spec_home_touch(*old(self), x as int, y as int, proofs_ready).1,
    {
        let buttons = home_buttons();
        if buttons[0].hit(x, y) {
            self.screen = AppScreen::Scanning;
            self.has_scan = false;
            self.aim_on = true;
            self.scan_ticks = 0;
            self.scan_retries = 0;
            push_all(
                fx,
                &[
                    Effect::ClearScan,
                    Effect::SetAim(true),
                    Effect::Trigger,
                    Effect::DrawScanning { aim_on: true },
                    Effect::DrawScanningProgress { step: 0, total: 10 },
                    Effect::SwapBuffers,
                ],
            );
        } else if buttons[1].hit(x, y) {
            if self.has_scan {
                self.screen = AppScreen::ScanResult;
                push_all(fx, &[Effect::RenderDecodedScan, Effect::SwapBuffers]);
            } else {
                self.screen = AppScreen::WaitingToken;
                push_all(fx, &[Effect::RenderWaitingToken, Effect::SwapBuffers]);
            }
        } else if buttons[2].hit(x, y) {
            if proofs_ready {
                self.screen = AppScreen::ShowProofs;
                push_all(fx, &[Effect::RenderExportQr, Effect::SwapBuffers]);
            } else {
                self.screen = AppScreen::Home;
                push_all(
                    fx,
                    &[
                        Effect::RenderNoProofs,
                        Effect::RenderHome {
                            scanner_connected: self.scanner_connected,
                            has_scan: self.has_scan,
                        },
                        Effect::SwapBuffers,
                    ],
                );
            }
        } else {
            assert(fx@ =~= old(fx)@ + Seq::<Effect>::empty());
        }
    }

    fn scan_poll(&mut self, arrived: bool, fx: &mut Vec<Effect>) -> (give_up: bool)
        requires
            old(self).inv(),
        ensures
            *final(self) == spec_scan_poll(*old(self), arrived).0,
            final(fx)@ == old(fx)@ + spec_scan_poll(*old(self), arrived).1,
            give_up == spec_scan_poll(*old(self), arrived).2,
    {
        if arrived {
            self.screen = AppScreen::ScanResult;
            self.aim_on = false;
            self.scan_ticks = 0;
            self.scan_retries = 0;
            self.has_scan = true;
            push_all(
                fx,
                &[Effect::SetAim(false), Effect::StoreScan, Effect::RenderDecodedScan, Effect::SwapBuffers],
            );
            return false;
        }
        let ghost start = *self;
        let ghost fx0 = fx@;
        self.scan_ticks = self.scan_ticks + 1;
        if self.scan_ticks % TICKS_PER_STEP == 0 {
            push_all(
                fx,
                &[
                    Effect::DrawScanning { aim_on: self.aim_on },
                    Effect::DrawScanningProgress {
                        step: self.scan_ticks / TICKS_PER_STEP,
                        total: SCAN_TIMEOUT_TICKS / TICKS_PER_STEP,
                    },
                    Effect::SwapBuffers,
                ],
            );
        } else {
            assert(fx@ =~= fx0 + Seq::<Effect>::empty());
        }
        assert(fx@ == fx0 + progress_effects(start.scan_ticks + 1, start.aim_on));
        let mut give_up = false;
        if self.scan_ticks > SCAN_TIMEOUT_TICKS {
            self.scan_retries = self.scan_retries + 1;
            self.scan_ticks = 0;
            if self.scan_retries < MAX_SCAN_RETRIES {
                push_all(
                    fx,
                    &[
                        Effect::DrawScanning { aim_on: self.aim_on },
                        Effect::DrawScanningRetry,
                        Effect::SwapBuffers,
                        Effect::Trigger,
                    ],
                );
                assert(fx@ =~= fx0 + spec_scan_poll(start, false).1);
            } else {
                give_up = true;
            }
        }
        give_up
    }

    fn scanning_touch(&mut self, x: u16, y: u16, fx: &mut Vec<Effect>) -> (leave: bool)
        requires
            old(self).scan_ticks <= SCAN_TIMEOUT_TICKS,
        ensures
            *final(self) == spec_scanning_touch(*old(self), x as int, y as int).0,
            final(fx)@ == old(fx)@ + spec_scanning_touch(*old(self), x as int, y as int).1,
            leave == spec_scanning_touch(*old(self), x as int, y as int).2,
    {
        let back = back_button();
        let aim = aim_button();
        if back.hit(x, y) {
            assert(fx@ =~= old(fx)@ + Seq::<Effect>::empty());
            true
        } else if aim.hit(x, y) {
            self.aim_on = !self.aim_on;
            push_all(
                fx,
                &[
                    Effect::SetAim(self.aim_on),
                    Effect::DrawScanning { aim_on: self.aim_on },
                    Effect::DrawScanningProgress {
                        step: self.scan_ticks / TICKS_PER_STEP,
                        total: SCAN_TIMEOUT_TICKS / TICKS_PER_STEP,
                    },
                    Effect::SwapBuffers,
                ],
            );
            false
        } else {
            assert(fx@ =~= old(fx)@ + Seq::<Effect>::empty());
            false
        }
    }

    /// One 5 ms poll tick. `arrived` says whether the scanner delivered data
    /// (polled only on the scanning screen), `touch` is the touch-panel
    /// reading and `swap_state` the progress of the swap. Returns the
    /// effects to perform, in order.
    pub fn tick(&mut self, arrived: bool, touch: Option<(u16, u16)>, swap_state: SwapState) -> (fx: Vec<Effect>)
        requires
            old(self).inv(),
        ensures
            final(self).inv(),
            (*final(self), fx@) == spec_tick(
                *old(self),
                arrived,
                touch,
                swap_state == SwapState::ProofsReady,
            ),
    {
        let ghost start = *self;
        let proofs_ready = swap_state == SwapState::ProofsReady;
        let screen = self.screen;
        let mut fx: Vec<Effect> = Vec::new();
        let mut go_home = false;
        if screen == AppScreen::Scanning {
            go_home = self.scan_poll(arrived, &mut fx);
        } else {
            assert(fx@ =~= Seq::<Effect>::empty() + Seq::<Effect>::empty());
        }
        let ghost polled = *self;
        let ghost fx_polled = fx@;
        assert(polled == spec_tick_polled(start, arrived).0);
        assert(fx_polled == spec_tick_polled(start, arrived).1);
        match touch {
            None => {
                self.touch_active = false;
                assert(fx@ =~= fx_polled + Seq::<Effect>::empty());
            },
            Some(p) => {
                if !self.touch_active {
                    self.touch_active = true;
                    let (x, y) = p;
                    match screen {
                        AppScreen::Home => {
                            self.home_touch(x, y, proofs_ready, &mut fx);
                        },
                        AppScreen::Scanning => {
                            let leave = self.scanning_touch(x, y, &mut fx);
                            go_home = go_home || leave;
                        },
                        _ => {
                            let back = back_button();
                            if back.hit(x, y) {
                                go_home = true;
                            }
                            assert(fx@ =~= fx_polled + Seq::<Effect>::empty());
                        },
                    }
                } else {
                    assert(fx@ =~= fx_polled + Seq::<Effect>::empty());
                }
            },
        }
        if go_home {
            self.go_home(&mut fx);
        }
        fx
    }

    /// A host frame whose command the caller has just handled. Returns
    /// the effects to perform before the response is sent.
    pub fn on_frame(&mut self, command: Command) -> (fx: Vec<Effect>)
        ensures
            (*final(self), fx@) == spec_on_frame(*old(self), command),
            old(self).inv() ==> final(self).inv(),
    {
        let mut fx: Vec<Effect> = Vec::new();
        if command == Command::ScannerTrigger {
            self.has_scan = false;
            fx.push(Effect::ClearScan);
        }
        if command == Command::ScannerData {
            self.has_scan = false;
        }
        if command == Command::ImportToken && self.screen == AppScreen::WaitingToken {
            self.screen = AppScreen::TokenInfo;
        }
        let draws = match command {
            Command::ImportToken
            | Command::ScannerTrigger
            | Command::ScannerData
            | Command::GetBlinded
            | Command::SendSignatures => true,
            _ => false,
        };
        if draws {
            fx.push(Effect::SwapBuffers);
        }
        let ghost expected = spec_on_frame(*old(self), command).1;
        assert(fx@ =~= expected);
        fx
    }
}

/// The flow after `n` ticks in which the scanner delivers nothing and the
/// panel is not touched.
pub open spec fn idle_ticks(f: AppFlow, n: nat) -> AppFlow
    decreases n,
{
    if n == 0 {
        f
    } else {
        idle_ticks(spec_tick(f, false, None, false).0, (n - 1) as nat)
    }
}

/// Idle ticks left before a scan attempt sequence is abandoned: the rest
/// of the current attempt plus every attempt still allowed.
pub open spec fn ticks_to_give_up(f: AppFlow) -> int {
    (MAX_SCAN_RETRIES - f.scan_retries) * (SCAN_TIMEOUT_TICKS + 1) - f.scan_ticks
}

/// A scan that never arrives is abandoned: after every remaining attempt
/// has timed out the flow is back on the home screen with the laser off
/// and the counters reset.
pub proof fn lemma_unanswered_scan_returns_home(f: AppFlow)
    requires
        f.inv(),
        f.screen == AppScreen::Scanning,
    ensures
        ticks_to_give_up(f) >= 1,
        idle_ticks(f, ticks_to_give_up(f) as nat).screen == AppScreen::Home,
        !idle_ticks(f, ticks_to_give_up(f) as nat).aim_on,
        idle_ticks(f, ticks_to_give_up(f) as nat).scan_ticks == 0,
        idle_ticks(f, ticks_to_give_up(f) as nat).scan_retries == 0,
    decreases ticks_to_give_up(f),
{
    let n = ticks_to_give_up(f);
    let g = spec_tick(f, false, None, false).0;
    assert(idle_ticks(f, n as nat) == idle_ticks(g, (n - 1) as nat));
    if f.scan_ticks + 1 > SCAN_TIMEOUT_TICKS && f.scan_retries + 1 >= MAX_SCAN_RETRIES {
        assert(n == 1);
        assert(idle_ticks(g, 0) == g);
    } else {
        assert(g.screen == AppScreen::Scanning);
        assert(g.inv());
        assert(ticks_to_give_up(g) == n - 1);
        lemma_unanswered_scan_returns_home(g);
    }
}

/// A touch acts only when it begins: while it is held, where it lies makes
/// no difference to the tick.
pub proof fn lemma_held_touch_is_inert(
    f: AppFlow,
    arrived: bool,
    p: (u16, u16),
    q: (u16, u16),
    proofs_ready: bool,
)
    requires
        f.touch_active,
    ensures
        spec_tick(f, arrived, Some(p), proofs_ready) == spec_tick(f, arrived, Some(q), proofs_ready),
{
}

} // verus!
