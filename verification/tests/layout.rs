use micronuts::layout::{home_menu, module_origin, qr_layout, MenuIcon};

#[test]
fn home_menu_cards() {
    let m = home_menu(true, false);
    assert_eq!(m.badge, "GM65 OK");
    assert!(m.badge_ok);
    assert_eq!(m.cards[0].title, "SCAN QR CODE");
    assert_eq!(m.cards[1].title, "IMPORT TOKEN");
    assert_eq!(m.cards[1].icon, MenuIcon::Download);
    assert_eq!(m.cards[2].subtitle, "Export proofs as QR");
    let m = home_menu(false, true);
    assert_eq!(m.badge, "NO SCANNER");
    assert_eq!(m.cards[1].title, "VIEW LAST SCAN");
}

#[test]
fn qr_layout_of_version_one() {
    // 21 modules + 4 quiet: 360 / 25 = 14 px per module.
    let l = qr_layout(21);
    assert_eq!(l.scale, 14);
    assert_eq!(l.card_side, 25 * 14 + 48);
    assert_eq!(l.card_x, (480 - 398) / 2);
    assert_eq!(l.caption_y, 150 + 398 + 30);
    assert_eq!(module_origin(&l, 21, 0, 0), Some((41 + 24 + 28, 150 + 24 + 28)));
    let big = qr_layout(177);
    assert_eq!(big.scale, 1);
}
