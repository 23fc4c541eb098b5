//! Layout of the home screen and of the QR-code screens: what is shown where,
//! as plain values; the drawing is done by the caller.
use vstd::prelude::*;

verus! {

/// Width of the display in pixels.
pub const SCREEN_WIDTH: u32 = 480;

/// Height of the display in pixels.
pub const SCREEN_HEIGHT: u32 = 800;

/// Quiet-zone modules around a QR code.
pub const QR_BORDER: u32 = 2;

/// Side of the largest QR code (version 40) in modules.
pub const QR_MAX_SIZE: u32 = 177;

/// Padding between the QR card's edge and the code.
pub const QR_CARD_PADDING: u32 = 24;

/// Top of the QR card.
pub const QR_CARD_TOP: u32 = 150;

/// Icon of a home-screen card.
#[derive(Debug, Clone, Copy, PartialEq, Eq, Structural)]
pub enum MenuIcon {
    Scan,
    Download,
    Coins,
}

/// One home-screen card: icon, title and subtitle.
pub struct MenuCard {
    pub icon: MenuIcon,
    pub title: &'static str,
    pub subtitle: &'static str,
}

/// What the home screen shows: the scanner badge in the header, whether it
/// is the healthy colour, and the three cards from top to bottom.
pub struct HomeMenu {
    pub badge: &'static str,
    pub badge_ok: bool,
    pub cards: [MenuCard; 3],
}

/// Whether `c` shows `icon`, `title` and `subtitle`.
pub open spec fn card_is(c: MenuCard, icon: MenuIcon, title: Seq<char>, subtitle: Seq<char>) -> bool {
    c.icon == icon && c.title@ == title && c.subtitle@ == subtitle
}

/// The home screen: the scanner badge, a scan card, then a card to review
/// the last scan when there is one (else to import a token over USB), then
/// the proof export card.
pub fn home_menu(scanner_connected: bool, has_last_scan: bool) -> (m: HomeMenu)
    ensures
        m.badge@ == (if scanner_connected {
            "GM65 OK"@
        } else {
            "NO SCANNER"@
        }),
        m.badge_ok == scanner_connected,
        card_is(m.cards[0], MenuIcon::Scan, "SCAN QR CODE"@, "Scan a Cashu QR code"@),
        has_last_scan ==> card_is(
            m.cards[1],
            MenuIcon::Scan,
            "VIEW LAST SCAN"@,
            "Review the captured QR"@,
        ),
        !has_last_scan ==> card_is(
            m.cards[1],
            MenuIcon::Download,
            "IMPORT TOKEN"@,
            "Receive a token over USB"@,
        ),
        card_is(m.cards[2], MenuIcon::Coins, "SHOW PROOFS"@, "Export proofs as QR"@),
{
    let badge = if scanner_connected {
        "GM65 OK"
    } else {
        "NO SCANNER"
    };
    let middle = if has_last_scan {
        MenuCard { icon: MenuIcon::Scan, title: "VIEW LAST SCAN", subtitle: "Review the captured QR" }
    } else {
        MenuCard {
            icon: MenuIcon::Download,
            title: "IMPORT TOKEN",
            subtitle: "Receive a token over USB",
        }
    };
    HomeMenu {
        badge,
        badge_ok: scanner_connected,
        cards: [
            MenuCard {
                icon: MenuIcon::Scan,
                title: "SCAN QR CODE",
                subtitle: "Scan a Cashu QR code",
            },
            middle,
            MenuCard { icon: MenuIcon::Coins, title: "SHOW PROOFS", subtitle: "Export proofs as QR" },
        ],
    }
}

/// Where a QR code of `size` modules goes: pixels per module, the white
/// card's corner and side, and the caption's baseline.
pub struct QrLayout {
    pub scale: u32,
    pub card_x: u32,
    pub card_y: u32,
    pub card_side: u32,
    pub caption_y: u32,
}

/// Pixels per module: the largest that fits the code and its quiet zone in
/// 360 by 540 pixels, at least one.
pub open spec fn qr_scale(size: nat) -> nat {
    let total = size + 2 * QR_BORDER;
    let s = if (SCREEN_WIDTH - 120) / total <= (SCREEN_HEIGHT - 260) / total {
        (SCREEN_WIDTH - 120) / total
    } else {
        (SCREEN_HEIGHT - 260) / total
    };
    if s < 1 {
        1
    } else {
        s as nat
    }
}

/// Side of the white card: the code with its quiet zone, padded.
pub open spec fn qr_card_side(size: nat) -> nat {
    ((size + 2 * QR_BORDER) * qr_scale(size) + 2 * QR_CARD_PADDING) as nat
}

/// Layout of a QR code of `size` modules, centred horizontally.
pub fn qr_layout(size: u32) -> (l: QrLayout)
    requires
        size <= QR_MAX_SIZE,
    ensures
        l.scale == qr_scale(size as nat),
        l.card_side == qr_card_side(size as nat),
        l.card_x == (SCREEN_WIDTH - qr_card_side(size as nat)) / 2,
        l.card_y == QR_CARD_TOP,
        l.caption_y == QR_CARD_TOP + qr_card_side(size as nat) + 30,
{
    let total = size + 2 * QR_BORDER;
    let by_width = (SCREEN_WIDTH - 120) / total;
    let by_height = (SCREEN_HEIGHT - 260) / total;
    let s = if by_width <= by_height {
        by_width
    } else {
        by_height
    };
    let scale = if s < 1 {
        1
    } else {
        s
    };
    assert(total * scale <= 360) by (nonlinear_arith)
        requires
            4 <= total <= 181,
            scale == (if s < 1 { 1 } else { s }),
            s <= 360u32 / total,
    ;
    let side = total * scale + 2 * QR_CARD_PADDING;
    QrLayout {
        scale,
        card_x: (SCREEN_WIDTH - side) / 2,
        card_y: QR_CARD_TOP,
        card_side: side,
        caption_y: QR_CARD_TOP + side + 30,
    }
}

/// Top-left pixel of module `(x, y)`, past the padding and quiet zone, if
/// the whole module lies on the screen.
pub open spec fn spec_module_origin(l: QrLayout, x: nat, y: nat) -> Option<(nat, nat)> {
    let px = l.card_x + QR_CARD_PADDING + (x + QR_BORDER) * l.scale;
    let py = l.card_y + QR_CARD_PADDING + (y + QR_BORDER) * l.scale;
    if px + l.scale <= SCREEN_WIDTH && py + l.scale <= SCREEN_HEIGHT {
        Some((px as nat, py as nat))
    } else {
        None
    }
}

/// Top-left pixel of module `(x, y)` of a code laid out by [`qr_layout`],
/// or none when the module would leave the screen.
pub fn module_origin(l: &QrLayout, size: u32, x: u32, y: u32) -> (r: Option<(u32, u32)>)
    requires
        size <= QR_MAX_SIZE,
        x < size,
        y < size,
        l.scale == qr_scale(size as nat),
        l.card_x <= SCREEN_WIDTH,
        l.card_y == QR_CARD_TOP,
    ensures
        r == (match spec_module_origin(*l, x as nat, y as nat) {
            Some((px, py)) => Some((px as u32, py as u32)),
            None => None::<(u32, u32)>,
        }),
{
    let total = size + 2 * QR_BORDER;
    let scale = l.scale;
    assert(scale <= 360) by (nonlinear_arith)
        requires
            4 <= total,
            scale == qr_scale(size as nat),
            total == size + 4,
    {
        assert((SCREEN_WIDTH - 120) / (total as int) <= 360) by (nonlinear_arith)
            requires
                total >= 4,
        ;
    }
    assert((x + QR_BORDER) * scale <= 181 * 360) by (nonlinear_arith)
        requires
            x < 177,
            scale <= 360,
    ;
    assert((y + QR_BORDER) * scale <= 181 * 360) by (nonlinear_arith)
        requires
            y < 177,
            scale <= 360,
    ;
    let px = l.card_x + QR_CARD_PADDING + (x + QR_BORDER) * scale;
    let py = l.card_y + QR_CARD_PADDING + (y + QR_BORDER) * scale;
    if px + scale <= SCREEN_WIDTH && py + scale <= SCREEN_HEIGHT {
        Some((px, py))
    } else {
        None
    }
}

} // verus!
