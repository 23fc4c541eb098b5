use micronuts::boot_splash::{
    classify_touch, render_frame, SplashState, TileAsset, BG_COLOR, INDICATOR_COLOR,
    VARIANT_DURATION_FRAMES,
};

const W: u32 = 40;
const H: u32 = 40;

fn tile(base: u16) -> TileAsset {
    TileAsset { width: 2, height: 2, data: vec![base + 1, base + 2, base + 3, base + 4] }
}

fn catalog() -> Vec<TileAsset> {
    vec![tile(0x1000), tile(0x2000), tile(0x3000), tile(0x4000)]
}

fn px(fb: &[u16], x: u32, y: u32) -> u16 {
    fb[(y * W + x) as usize]
}

#[test]
fn classify_touch_reads_swipes_and_taps() {
    assert_eq!(classify_touch(0, 0, 100, 5), Some(true));
    assert_eq!(classify_touch(100, 0, 0, 5), Some(false));
    assert_eq!(classify_touch(0, 0, 50, 0), None);
    assert_eq!(classify_touch(0, 0, -50, 0), None);
    assert_eq!(classify_touch(0, 0, -51, 0), Some(false));
    assert_eq!(classify_touch(10, 0, 61, 99), Some(true));
}

#[test]
fn first_frame_draws_shifted_tiles_and_indicator() {
    let mut fb = vec![0xFFFFu16; (W * H) as usize + 3];
    let mut state = SplashState::new();
    let cycled = render_frame(&mut fb, W, H, &mut state, &catalog());
    assert!(!cycled);
    assert_eq!(state.global_frame, 1);
    // Variant A, tile 0 (2x2), gap 2: pitch 4. Row 0 moved right by 3.
    assert_eq!(px(&fb, 0, 0), BG_COLOR);
    assert_eq!(px(&fb, 1, 0), 0x1001);
    assert_eq!(px(&fb, 2, 0), 0x1002);
    assert_eq!(px(&fb, 3, 0), BG_COLOR);
    assert_eq!(px(&fb, 1, 1), 0x1003);
    assert_eq!(px(&fb, 2, 1), 0x1004);
    assert_eq!(px(&fb, 1, 2), BG_COLOR);
    assert_eq!(px(&fb, 5, 0), 0x1001);
    // Row 1 moved left by 3: shift 1.
    assert_eq!(px(&fb, 0, 4), 0x1002);
    assert_eq!(px(&fb, 3, 4), 0x1001);
    assert_eq!(px(&fb, 2, 4), BG_COLOR);
    // Indicator 'A' at (22, 18): top row is .###.
    assert_eq!(px(&fb, 24, 18), INDICATOR_COLOR);
    assert_eq!(px(&fb, 25, 19), INDICATOR_COLOR);
    assert_ne!(px(&fb, 22, 18), INDICATOR_COLOR);
    // Pixels past width * height are left alone.
    assert_eq!(&fb[(W * H) as usize..], &[0xFFFF, 0xFFFF, 0xFFFF]);
}

#[test]
fn variant_cycles_after_its_duration() {
    let mut fb = vec![0u16; (W * H) as usize];
    let mut state = SplashState::new();
    let cat = catalog();
    for _ in 0..VARIANT_DURATION_FRAMES - 1 {
        assert!(!render_frame(&mut fb, W, H, &mut state, &cat));
    }
    assert!(render_frame(&mut fb, W, H, &mut state, &cat));
    assert_eq!(state.global_frame, VARIANT_DURATION_FRAMES);
    // Now variant B: its 'B' has the top-left pixel set.
    render_frame(&mut fb, W, H, &mut state, &cat);
    assert_eq!(px(&fb, 22, 18), INDICATOR_COLOR);
}

#[test]
fn next_and_prev_variant_switch_the_indicator() {
    let mut fb = vec![0u16; (W * H) as usize];
    let cat = catalog();

    let mut state = SplashState::new();
    state.next_variant();
    render_frame(&mut fb, W, H, &mut state, &cat);
    assert_eq!(px(&fb, 22, 18), INDICATOR_COLOR); // 'B'

    let mut state = SplashState::new();
    state.prev_variant();
    render_frame(&mut fb, W, H, &mut state, &cat);
    assert_ne!(px(&fb, 22, 18), INDICATOR_COLOR); // 'C' top row .###.
    assert_eq!(px(&fb, 22, 22), INDICATOR_COLOR); // 'C' third row #....

    let mut state = SplashState::new();
    state.next_variant();
    state.prev_variant();
    render_frame(&mut fb, W, H, &mut state, &cat);
    assert_ne!(px(&fb, 22, 18), INDICATOR_COLOR); // back to 'A'
    assert_eq!(px(&fb, 24, 18), INDICATOR_COLOR);
}

#[test]
fn short_catalog_falls_back_to_last_tile() {
    let mut fb = vec![0u16; (W * H) as usize];
    let cat = vec![tile(0x1000), tile(0x2000)];
    let mut state = SplashState::new();
    state.next_variant(); // variant B wants tile 2
    render_frame(&mut fb, W, H, &mut state, &cat);
    let used: Vec<u16> = fb.iter().copied().filter(|p| *p & 0xF000 == 0x2000).collect();
    assert!(!used.is_empty());
    assert!(fb.iter().all(|p| *p & 0xF000 != 0x1000));
}

#[test]
fn tiny_display_still_renders() {
    let mut fb = vec![7u16; 12];
    let mut state = SplashState::new();
    render_frame(&mut fb, 4, 3, &mut state, &catalog());
    assert_eq!(state.global_frame, 1);
}
