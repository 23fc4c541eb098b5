use micronuts::framebuffer::{pack_argb, RawFramebuffer};
use micronuts::qr::decoder::is_qr_payload;
use micronuts::self_test::{test_heap, test_usb_cdc_protocol, TestResult, TestStatus};
use micronuts::uart_log::UartLogger;

#[test]
fn qr_payload_accepts_tokens_fragments_and_text() {
    assert!(is_qr_payload(b"cashuBpGF0gaJhaUgA"));
    assert!(is_qr_payload(b"cashuA\xff\xfe"));
    assert!(is_qr_payload(b"ur:bytes/1-3/\xff"));
    assert!(is_qr_payload("héllo".as_bytes()));
    assert!(is_qr_payload(b""));
    assert!(!is_qr_payload(b"\xff\xfe\xfd"));
    assert!(!is_qr_payload(b"cash\xc3"));
}

#[test]
fn self_tests_without_hardware_pass() {
    let heap = test_heap();
    assert_eq!(heap.status, TestStatus::Pass);
    assert_eq!(heap.name, "Heap");
    let usb = test_usb_cdc_protocol();
    assert_eq!(usb.status, TestStatus::Pass);
    assert_eq!(TestResult::fail("x").status, TestStatus::Fail);
    assert_eq!(TestResult::skip("y").status, TestStatus::Skip);
    assert_eq!(TestResult::pass("z").name, "z");
}

#[test]
fn framebuffer_present_flips_and_keeps_drawing() {
    let mut fb = RawFramebuffer::new_double(vec![1, 1, 1], vec![9, 9, 9]);
    assert_eq!(fb.front(), &[1, 1, 1]);
    assert_eq!(fb.as_raw(), &[1, 1, 1]);
    fb.as_raw()[0] = 7;
    assert_eq!(fb.front(), &[1, 1, 1]);
    fb.present();
    assert_eq!(fb.front(), &[7, 1, 1]);
    assert_eq!(fb.as_raw(), &[7, 1, 1]);
    fb.as_raw()[2] = 5;
    fb.present();
    assert_eq!(fb.front(), &[7, 1, 5]);
}

#[test]
fn uart_logger_wraps_its_port() {
    let _logger = UartLogger::new(42u8);
}

#[test]
fn argb_packing_is_opaque_rgb() {
    assert_eq!(pack_argb(0, 0, 0), 0xFF00_0000);
    assert_eq!(pack_argb(0x12, 0x34, 0x56), 0xFF12_3456);
    assert_eq!(pack_argb(255, 255, 255), 0xFFFF_FFFF);
}

#[test]
fn pixels_are_clipped_to_the_display() {
    let mut fb = RawFramebuffer::new_double(vec![0; 12], vec![0; 12]);
    fb.draw_pixel(4, 3, 1, 2, 0x10, 0x20, 0x30);
    fb.draw_pixel(4, 3, -1, 0, 1, 1, 1);
    fb.draw_pixel(4, 3, 4, 0, 1, 1, 1);
    fb.draw_pixel(4, 3, 0, 3, 1, 1, 1);
    let back = fb.as_raw().to_vec();
    assert_eq!(back[2 * 4 + 1], 0xFF10_2030);
    assert_eq!(back.iter().filter(|p| **p != 0).count(), 1);
    assert_eq!(fb.front(), &[0; 12]);
}

#[test]
fn fill_rect_clips_and_clear_fills_everything() {
    let mut fb = RawFramebuffer::new_double(vec![0; 14], vec![0; 14]);
    // 4x3 display, buffer two words longer.
    fb.fill_rect(4, 3, -1, 1, 3, 5, 0, 0, 1);
    let back = fb.as_raw().to_vec();
    let want: Vec<u32> = vec![
        0, 0, 0, 0, //
        0xFF00_0001, 0xFF00_0001, 0, 0, //
        0xFF00_0001, 0xFF00_0001, 0, 0, //
        0, 0,
    ];
    assert_eq!(back, want);
    fb.fill_rect(4, 3, 0, -2, 4, 2, 9, 9, 9);
    assert_eq!(fb.as_raw().to_vec(), want);
    fb.clear_rgb(1, 2, 3);
    assert!(fb.as_raw().iter().all(|p| *p == 0xFF01_0203));
    assert!(fb.front().iter().all(|p| *p == 0));
}
