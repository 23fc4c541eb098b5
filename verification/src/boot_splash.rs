//! Boot splash animation: rows of repeated logo tiles that drift left and
//! right in turn, cycling through three visual variants.
//!
//! The display is treated as horizontal rows of tiles. Each row has its own
//! integer pixel offset and scroll direction (alternating by row index), an
//! optional brick-style half-pitch stagger and a per-row phase. A row is
//! drawn as enough tiles to cover the width plus one extra, placed at every
//! multiple of the pitch shifted by the row offset taken modulo the pitch,
//! so it wraps seamlessly.
//!
//! Variant A (dense drift): tiny tiles, tight spacing, fast opposing drift.
//! Variant B (brick scroll): medium tiles, brick stagger, mixed speeds.
//! Variant C (big wave): large tiles, slow motion, per-row phase offset.
//!
//! The module is parameterised by the display size; tiles come from a
//! catalog of pre-rendered RGB565 assets.
use vstd::prelude::*;
use vstd::arithmetic::div_mod::lemma_fundamental_div_mod;
use vstd::arithmetic::div_mod::lemma_fundamental_div_mod_converse;
use vstd::arithmetic::div_mod::lemma_div_is_ordered;

verus! {

/// How long each variant is shown, in frames (3 s at 30 FPS).
pub const VARIANT_DURATION_FRAMES: u32 = 90;

/// Number of animation variants.
pub const NUM_VARIANTS: usize = 3;

/// Background colour (RGB565 black).
pub const BG_COLOR: u16 = 0x0000;

/// Spacing between tiles in pixels.
pub const TILE_GAP: u16 = 2;

/// Colour of the variant indicator glyph (RGB565 mid-grey).
pub const INDICATOR_COLOR: u16 = 0x8410;

/// Rows whose scroll offsets are kept.
pub const ROW_SLOTS: usize = 30;

/// Largest pitch a tile can have: widest tile plus the widest gap.
pub const MAX_PITCH: i32 = 65543;

/// Largest display side the renderer accepts: tile positions are `i32`, and
/// a row reaches up to two tile pitches past the right edge, so a side must
/// stay that far below 2^31.
pub const MAX_DIMENSION: u32 = 0x7FFC_0000;

/// One pre-rendered tile: `width * height` RGB565 pixels, row-major.
pub struct TileAsset {
    pub width: u16,
    pub height: u16,
    pub data: Vec<u16>,
}

impl TileAsset {
    /// The pixel buffer holds exactly `width * height` pixels.
    pub open spec fn wf(&self) -> bool {
        self.data@.len() == self.width * self.height
    }
}

/// Parameters of one visual variant.
#[derive(Clone, Copy)]
struct VariantConfig {
    /// Catalog index of the tile used.
    tile_index: usize,
    /// Base scroll speed in pixels per frame.
    speed: i16,
    /// Stagger odd rows by half a pitch.
    brick_stagger: bool,
    /// Extra speed of odd rows.
    odd_row_speed_delta: i16,
    /// Per-row phase offset in pixels.
    row_phase_step: i16,
    /// Gap added to `TILE_GAP`.
    extra_gap: u16,
}

spec fn spec_variant_config(v: int) -> VariantConfig {
    if v == 0 {
        VariantConfig {
            tile_index: 0,
            speed: 3,
            brick_stagger: false,
            odd_row_speed_delta: 0,
            row_phase_step: 0,
            extra_gap: 0,
        }
    } else if v == 1 {
        VariantConfig {
            tile_index: 2,
            speed: 2,
            brick_stagger: true,
            odd_row_speed_delta: 1,
            row_phase_step: 0,
            extra_gap: 4,
        }
    } else {
        VariantConfig {
            tile_index: 3,
            speed: 1,
            brick_stagger: false,
            odd_row_speed_delta: 0,
            row_phase_step: 8,
            extra_gap: 6,
        }
    }
}

fn variant_config(v: usize) -> (c: VariantConfig)
    ensures
        c == spec_variant_config(v as int),
{
    if v == 0 {
        VariantConfig {
            tile_index: 0,
            speed: 3,
            brick_stagger: false,
            odd_row_speed_delta: 0,
            row_phase_step: 0,
            extra_gap: 0,
        }
    } else if v == 1 {
        VariantConfig {
            tile_index: 2,
            speed: 2,
            brick_stagger: true,
            odd_row_speed_delta: 1,
            row_phase_step: 0,
            extra_gap: 4,
        }
    } else {
        VariantConfig {
            tile_index: 3,
            speed: 1,
            brick_stagger: false,
            odd_row_speed_delta: 0,
            row_phase_step: 8,
            extra_gap: 6,
        }
    }
}

/// Catalog index of the tile variant `v` draws with.
pub open spec fn variant_tile_index(v: int) -> int {
    if v == 0 {
        0
    } else if v == 1 {
        2
    } else {
        3
    }
}

/// Base scroll speed of variant `v`.
pub open spec fn variant_speed(v: int) -> int {
    if v == 0 {
        3
    } else if v == 1 {
        2
    } else {
        1
    }
}

/// Whether variant `v` staggers odd rows by half a pitch.
pub open spec fn variant_brick(v: int) -> bool {
    v == 1
}

/// Extra speed of odd rows in variant `v`.
pub open spec fn variant_odd_delta(v: int) -> int {
    if v == 1 {
        1
    } else {
        0
    }
}

/// Per-row phase step of variant `v`.
pub open spec fn variant_phase_step(v: int) -> int {
    if v == 2 {
        8
    } else {
        0
    }
}

/// Gap between tiles in variant `v`, `TILE_GAP` included.
pub open spec fn variant_gap(v: int) -> int {
    if v == 0 {
        2
    } else if v == 1 {
        6
    } else {
        8
    }
}

proof fn lemma_config_matches(v: int)
    requires
        0 <= v < 3,
    ensures
        spec_variant_config(v).tile_index == variant_tile_index(v),
        spec_variant_config(v).speed == variant_speed(v),
        spec_variant_config(v).brick_stagger == variant_brick(v),
        spec_variant_config(v).odd_row_speed_delta == variant_odd_delta(v),
        spec_variant_config(v).row_phase_step == variant_phase_step(v),
        TILE_GAP + spec_variant_config(v).extra_gap == variant_gap(v),
{
}

/// Abstract state of the running animation.
pub struct SplashView {
    pub variant: int,
    pub frame: int,
    pub global_frame: int,
    pub offsets: Seq<int>,
}

/// Mutable state of the running splash animation.
pub struct SplashState {
    /// Current variant, below `NUM_VARIANTS`.
    variant: usize,
    /// Frames shown of the current variant.
    frame: u32,
    /// Frames shown in all.
    pub global_frame: u32,
    /// Per-row scroll accumulators.
    row_offsets: [i32; 30],
}

impl View for SplashState {
    type V = SplashView;

    closed spec fn view(&self) -> SplashView {
        SplashView {
            variant: self.variant as int,
            frame: self.frame as int,
            global_frame: self.global_frame as int,
            offsets: Seq::new(30, |i: int| self.row_offsets@[i] as int),
        }
    }
}

/// Thirty zero offsets.
pub open spec fn zero_offsets() -> Seq<int> {
    Seq::new(30, |i: int| 0int)
}

/// The variant after `v`, wrapping.
pub open spec fn next_variant_index(v: int) -> int {
    (v + 1) % (NUM_VARIANTS as int)
}

/// The variant before `v`, wrapping.
pub open spec fn prev_variant_index(v: int) -> int {
    if v == 0 {
        NUM_VARIANTS - 1
    } else {
        v - 1
    }
}

/// Stepping back a variant undoes stepping forward, and the other way
/// round, for every valid variant.
pub proof fn lemma_variant_steps_undo(v: int)
    requires
        0 <= v < NUM_VARIANTS,
    ensures
        prev_variant_index(next_variant_index(v)) == v,
        next_variant_index(prev_variant_index(v)) == v,
        0 <= next_variant_index(v) < NUM_VARIANTS,
        0 <= prev_variant_index(v) < NUM_VARIANTS,
{
}

/// What every reachable state satisfies: a valid variant, a frame count
/// below the variant duration and offsets that lie in `[0, MAX_PITCH)`.
pub open spec fn splash_inv(v: SplashView) -> bool {
    &&& 0 <= v.variant < NUM_VARIANTS
    &&& 0 <= v.frame < VARIANT_DURATION_FRAMES
    &&& v.offsets.len() == ROW_SLOTS
    &&& forall|i: int| 0 <= i < ROW_SLOTS ==> 0 <= #[trigger] v.offsets[i] < MAX_PITCH
}

impl SplashState {
    pub open spec fn wf(&self) -> bool {
        splash_inv(self@)
    }

    proof fn lemma_view_offsets(&self)
        ensures
            self@.offsets.len() == 30,
            forall|i: int| 0 <= i < 30 ==> #[trigger] self@.offsets[i] == self.row_offsets@[i] as int,
    {
    }

    /// Starts at variant A, frame zero, with all rows at offset zero.
    pub fn new() -> (s: Self)
        ensures
            s.wf(),
            s@ == (SplashView { variant: 0, frame: 0, global_frame: 0, offsets: zero_offsets() }),
    {
        let s = Self { variant: 0, frame: 0, global_frame: 0, row_offsets: [0i32; 30] };
        assert(s@.offsets =~= zero_offsets());
        s
    }

    /// Switches to the next variant (wrapping), restarting its frame count
    /// and resetting every row offset.
    pub fn next_variant(&mut self)
        requires
            0 <= old(self)@.variant < NUM_VARIANTS,
        ensures
            final(self).wf(),
            final(self)@ == (SplashView {
                variant: next_variant_index(old(self)@.variant),
                frame: 0,
                global_frame: old(self)@.global_frame,
                offsets: zero_offsets(),
            }),
    {
        self.variant = (self.variant + 1) % NUM_VARIANTS;
        self.frame = 0;
        self.row_offsets = [0i32; 30];
        assert(self@.offsets =~= zero_offsets());
    }

    /// Switches to the previous variant (wrapping), restarting its frame
    /// count and resetting every row offset.
    pub fn prev_variant(&mut self)
        requires
            0 <= old(self)@.variant < NUM_VARIANTS,
        ensures
            final(self).wf(),
            final(self)@ == (SplashView {
                variant: prev_variant_index(old(self)@.variant),
                frame: 0,
                global_frame: old(self)@.global_frame,
                offsets: zero_offsets(),
            }),
    {
        self.variant = if self.variant == 0 {
            NUM_VARIANTS - 1
        } else {
            self.variant - 1
        };
        self.frame = 0;
        self.row_offsets = [0i32; 30];
        assert(self@.offsets =~= zero_offsets());
    }
}

// ---------------------------------------------------------------------------
// Pixel addressing
// ---------------------------------------------------------------------------

/// Index of pixel `(x, y)` in a row-major buffer `w` pixels wide.
pub open spec fn pixel_index(x: int, y: int, w: int) -> int {
    y * w + x
}

pub(crate) proof fn lemma_pixel_bound(x: int, y: int, w: int, h: int)
    requires
        0 <= x < w,
        0 <= y < h,
    ensures
        0 <= pixel_index(x, y, w) < w * h,
        pixel_index(x, y, w) + 1 <= w * h,
{
    assert(0 <= y * w + x < w * h) by (nonlinear_arith)
        requires
            0 <= x < w,
            0 <= y < h,
    ;
}

pub(crate) proof fn lemma_pixel_inj(x1: int, y1: int, x2: int, y2: int, w: int)
    requires
        0 <= x1 < w,
        0 <= x2 < w,
        0 <= y1,
        0 <= y2,
        pixel_index(x1, y1, w) == pixel_index(x2, y2, w),
    ensures
        x1 == x2,
        y1 == y2,
{
    lemma_fundamental_div_mod_converse(y1 * w + x1, w, y1, x1);
    lemma_fundamental_div_mod_converse(y2 * w + x2, w, y2, x2);
}

// ---------------------------------------------------------------------------
// Variant indicator
// ---------------------------------------------------------------------------

/// 5x7 bitmap of the indicator glyph of variant `v` ('A', 'B', 'C'), one
/// byte per row, the leftmost column in bit 4.
pub open spec fn glyph_rows(v: int) -> Seq<u8> {
    if v == 0 {
        seq![0b01110u8, 0b10001, 0b10001, 0b11111, 0b10001, 0b10001, 0b10001]
    } else if v == 1 {
        seq![0b11110u8, 0b10001, 0b10001, 0b11110, 0b10001, 0b10001, 0b11110]
    } else {
        seq![0b01110u8, 0b10001, 0b10000, 0b10000, 0b10000, 0b10001, 0b01110]
    }
}

/// Whether column `c` of glyph row `r` is set.
pub open spec fn glyph_bit(v: int, r: int, c: int) -> bool {
    glyph_rows(v)[r] & (1u8 << ((4 - c) as u8)) != 0
}

/// Left edge of the indicator: 8 pixels of margin from the right.
pub open spec fn indicator_left(w: int) -> int {
    if w >= 18 {
        w - 18
    } else {
        0
    }
}

/// Top edge of the indicator: 8 pixels of margin from the bottom.
pub open spec fn indicator_top(h: int) -> int {
    if h >= 22 {
        h - 22
    } else {
        0
    }
}

/// Whether the indicator of variant `v` lights pixel `(x, y)`: the glyph is
/// drawn at twice its size with its corner at the indicator origin.
pub open spec fn indicator_lit(v: int, w: int, h: int, x: int, y: int) -> bool {
    let ox = indicator_left(w);
    let oy = indicator_top(h);
    &&& ox <= x < ox + 10
    &&& oy <= y < oy + 14
    &&& glyph_bit(v, (y - oy) / 2, (x - ox) / 2)
}

fn glyph_for(variant: usize) -> (g: [u8; 7])
    ensures
        g@ == glyph_rows(variant as int),
{
    let g: [u8; 7] = if variant == 0 {
        [0b01110, 0b10001, 0b10001, 0b11111, 0b10001, 0b10001, 0b10001]
    } else if variant == 1 {
        [0b11110, 0b10001, 0b10001, 0b11110, 0b10001, 0b10001, 0b11110]
    } else {
        [0b01110, 0b10001, 0b10000, 0b10000, 0b10000, 0b10001, 0b01110]
    };
    assert(g@ =~= glyph_rows(variant as int));
    g
}

/// Draws the variant letter ('A', 'B' or 'C') at twice its size in the
/// bottom-right corner, clipped to the display.
fn render_variant_indicator(fb: &mut [u16], width: u32, height: u32, variant: usize)
    requires
        width * height <= u32::MAX,
        old(fb)@.len() >= width * height,
    ensures
        final(fb)@.len() == old(fb)@.len(),
        forall|x: int, y: int|
            0 <= x < width && 0 <= y < height ==> #[trigger] final(fb)@[pixel_index(
                x,
                y,
                width as int,
            )] == if indicator_lit(variant as int, width as int, height as int, x, y) {
                INDICATOR_COLOR
            } else {
                old(fb)@[pixel_index(x, y, width as int)]
            },
        forall|i: int| width * height <= i < old(fb)@.len() ==> final(fb)@[i] == old(fb)@[i],
{
    let glyph = glyph_for(variant);
    let scale: u32 = 2;
    let gw = 5 * scale;
    let gh = 7 * scale;
    let margin: u32 = 8;
    let ox = width.saturating_sub(gw + margin);
    let oy = height.saturating_sub(gh + margin);
    let x_end = if ox + gw < width { ox + gw } else { width };
    let y_end = if oy + gh < height { oy + gh } else { height };
    let ghost w = width as int;
    let ghost h = height as int;
    let ghost old_fb = fb@;
    let mut py = oy;
    while py < y_end
        invariant
            oy == indicator_top(h),
            ox == indicator_left(w),
            oy <= py <= y_end,
            y_end <= height,
            y_end <= oy + 14,
            x_end <= width,
            x_end <= ox + 10,
            ox + 10 >= width ==> x_end == width,
            ox + 10 < width ==> x_end == ox + 10,
            oy + 14 >= height ==> y_end == height,
            oy + 14 < height ==> y_end == oy + 14,
            width * height <= u32::MAX,
            w == width,
            h == height,
            glyph@ == glyph_rows(variant as int),
            fb@.len() == old_fb.len(),
            old_fb.len() >= width * height,
            forall|x: int, y: int|
                0 <= x < width && 0 <= y < height ==> #[trigger] fb@[pixel_index(x, y, w)] == if y
                    < py && indicator_lit(variant as int, w, h, x, y) {
                    INDICATOR_COLOR
                } else {
                    old_fb[pixel_index(x, y, w)]
                },
            forall|i: int| w * h <= i < old_fb.len() ==> fb@[i] == old_fb[i],
        decreases y_end - py,
    {
        let row = (py - oy) / 2;
        let bits = glyph[row as usize];
        let mut px = ox;
        while px < x_end
            invariant
                oy == indicator_top(h),
                ox == indicator_left(w),
                oy <= py < y_end,
                ox <= px <= x_end,
                y_end <= height,
                y_end <= oy + 14,
                x_end <= width,
                x_end <= ox + 10,
                ox + 10 >= width ==> x_end == width,
                ox + 10 < width ==> x_end == ox + 10,
                width * height <= u32::MAX,
                w == width,
                h == height,
                row == (py - oy) / 2,
                bits == glyph_rows(variant as int)[row as int],
                fb@.len() == old_fb.len(),
                old_fb.len() >= width * height,
                forall|x: int, y: int|
                    0 <= x < width && 0 <= y < height ==> #[trigger] fb@[pixel_index(x, y, w)]
                        == if (y < py || (y == py && x < px)) && indicator_lit(
                        variant as int,
                        w,
                        h,
                        x,
                        y,
                    ) {
                        INDICATOR_COLOR
                    } else {
                        old_fb[pixel_index(x, y, w)]
                    },
                forall|i: int| w * h <= i < old_fb.len() ==> fb@[i] == old_fb[i],
            decreases x_end - px,
        {
            let col = (px - ox) / 2;
            let lit = bits & (1u8 << (4 - col as u8)) != 0;
            if lit {
                proof {
                    lemma_pixel_bound(px as int, py as int, w, h);
                }
                assert(indicator_lit(variant as int, w, h, px as int, py as int));
                let idx = (py * width + px) as usize;
                assert(idx as int == pixel_index(px as int, py as int, w));
                let ghost prev = fb@;
                fb[idx] = INDICATOR_COLOR;
                assert(fb@ == prev.update(idx as int, INDICATOR_COLOR));
                proof {
                    assert forall|x: int, y: int|
                        0 <= x < width && 0 <= y < height implies #[trigger] fb@[pixel_index(
                        x,
                        y,
                        w,
                    )] == if (y < py || (y == py && x < px + 1)) && indicator_lit(
                        variant as int,
                        w,
                        h,
                        x,
                        y,
                    ) {
                        INDICATOR_COLOR
                    } else {
                        old_fb[pixel_index(x, y, w)]
                    } by {
                        assert(prev[pixel_index(x, y, w)] == if (y < py || (y == py && x < px))
                            && indicator_lit(variant as int, w, h, x, y) {
                            INDICATOR_COLOR
                        } else {
                            old_fb[pixel_index(x, y, w)]
                        });
                        lemma_pixel_bound(x, y, w, h);
                        if x == px && y == py {
                        } else if pixel_index(x, y, w) == idx as int {
                            lemma_pixel_inj(x, y, px as int, py as int, w);
                        }
                    }
                }
            } else {
                assert(!indicator_lit(variant as int, w, h, px as int, py as int));
            }
            px = px + 1;
        }
        py = py + 1;
    }
}

/// Whether a tile `tw` by `th` placed with its corner at `(tx, ty)` covers
/// pixel `(x, y)`.
pub open spec fn in_tile_rect(tw: int, th: int, tx: int, ty: int, x: int, y: int) -> bool {
    tx <= x < tx + tw && ty <= y < ty + th
}

/// Copies `tile` onto the framebuffer with its corner at `(tx, ty)`, clipped
/// to the `fb_w` by `fb_h` display. No scaling.
fn blit_tile(fb: &mut [u16], fb_w: u32, fb_h: u32, tile: &TileAsset, tx: i32, ty: i32)
    requires
        tile.wf(),
        fb_w * fb_h <= u32::MAX,
        fb_w < MAX_DIMENSION,
        fb_h < MAX_DIMENSION,
        old(fb)@.len() >= fb_w * fb_h,
        tx > i32::MIN,
        ty > i32::MIN,
    ensures
        final(fb)@.len() == old(fb)@.len(),
        forall|x: int, y: int|
            0 <= x < fb_w && 0 <= y < fb_h ==> #[trigger] final(fb)@[pixel_index(x, y, fb_w as int)]
                == if in_tile_rect(tile.width as int, tile.height as int, tx as int, ty as int, x, y) {
                tile.data@[(y - ty) * tile.width + (x - tx)]
            } else {
                old(fb)@[pixel_index(x, y, fb_w as int)]
            },
        forall|i: int| fb_w * fb_h <= i < old(fb)@.len() ==> final(fb)@[i] == old(fb)@[i],
{
    let tw = tile.width as i32;
    let th = tile.height as i32;
    let src_x0 = if tx < 0 {
        -tx
    } else {
        0
    };
    let src_y0 = if ty < 0 {
        -ty
    } else {
        0
    };
    let dst_x0 = if tx + src_x0 > 0 {
        (tx + src_x0) as u32
    } else {
        0
    };
    let dst_y0 = if ty + src_y0 > 0 {
        (ty + src_y0) as u32
    } else {
        0
    };
    let room_w = fb_w as i32 - dst_x0 as i32;
    let room_h = fb_h as i32 - dst_y0 as i32;
    let copy_w = if tw - src_x0 < room_w {
        tw - src_x0
    } else {
        room_w
    };
    let copy_h = if th - src_y0 < room_h {
        th - src_y0
    } else {
        room_h
    };
    let ghost w = fb_w as int;
    let ghost h = fb_h as int;
    let ghost twi = tile.width as int;
    let ghost thi = tile.height as int;
    let ghost old_fb = fb@;
    if copy_w <= 0 || copy_h <= 0 {
        assert forall|x: int, y: int| 0 <= x < fb_w && 0 <= y < fb_h implies !in_tile_rect(
            twi,
            thi,
            tx as int,
            ty as int,
            x,
            y,
        ) by {}
        return;
    }
    let copy_w = copy_w as u32;
    let copy_h = copy_h as u32;
    let src_x0 = src_x0 as u32;
    let src_y0 = src_y0 as u32;
    let tile_w = tile.width as u32;
    assert(twi * thi <= u32::MAX) by (nonlinear_arith)
        requires
            0 <= twi <= 65535,
            0 <= thi <= 65535,
    ;
    let mut row: u32 = 0;
    while row < copy_h
        invariant
            tile.wf(),
            w == fb_w,
            h == fb_h,
            twi == tile.width,
            thi == tile.height,
            tile_w == tile.width,
            fb_w * fb_h <= u32::MAX,
            fb@.len() == old_fb.len(),
            old_fb.len() >= fb_w * fb_h,
            dst_x0 + copy_w <= fb_w,
            dst_y0 + copy_h <= fb_h,
            src_x0 + copy_w <= tile.width,
            src_y0 + copy_h <= tile.height,
            src_x0 - dst_x0 == -tx,
            src_y0 - dst_y0 == -ty,
            copy_w > 0,
            twi * thi <= u32::MAX,
            forall|x: int, y: int|
                0 <= x < fb_w && 0 <= y < fb_h ==> (in_tile_rect(twi, thi, tx as int, ty as int, x, y)
                    <==> (dst_x0 <= x < dst_x0 + copy_w && dst_y0 <= y < dst_y0 + copy_h)),
            row <= copy_h,
            forall|x: int, y: int|
                0 <= x < fb_w && 0 <= y < fb_h ==> #[trigger] fb@[pixel_index(x, y, w)] == if dst_x0
                    <= x < dst_x0 + copy_w && dst_y0 <= y < dst_y0 + row {
                    tile.data@[(y - ty) * twi + (x - tx)]
                } else {
                    old_fb[pixel_index(x, y, w)]
                },
            forall|i: int| w * h <= i < old_fb.len() ==> fb@[i] == old_fb[i],
        decreases copy_h - row,
    {
        proof {
            lemma_pixel_bound(src_x0 as int, (src_y0 + row) as int, twi, thi);
            lemma_pixel_bound(dst_x0 as int, (dst_y0 + row) as int, w, h);
        }
        let src_row_start = (src_y0 + row) * tile_w + src_x0;
        let dst_row_start = (dst_y0 + row) * fb_w + dst_x0;
        let mut k: u32 = 0;
        while k < copy_w
            invariant
                tile.wf(),
                w == fb_w,
                h == fb_h,
                twi == tile.width,
                thi == tile.height,
                fb_w * fb_h <= u32::MAX,
                fb@.len() == old_fb.len(),
                old_fb.len() >= fb_w * fb_h,
                dst_x0 + copy_w <= fb_w,
                dst_y0 + copy_h <= fb_h,
                src_x0 + copy_w <= tile.width,
                src_y0 + copy_h <= tile.height,
                src_x0 - dst_x0 == -tx,
                src_y0 - dst_y0 == -ty,
                row < copy_h,
                k <= copy_w,
                twi * thi <= u32::MAX,
                src_row_start == (src_y0 + row) * twi + src_x0,
                dst_row_start == pixel_index(dst_x0 as int, (dst_y0 + row) as int, w),
                forall|x: int, y: int|
                    0 <= x < fb_w && 0 <= y < fb_h ==> #[trigger] fb@[pixel_index(x, y, w)] == if dst_x0
                        <= x < dst_x0 + copy_w && (dst_y0 <= y < dst_y0 + row || (y == dst_y0 + row
                        && x < dst_x0 + k)) {
                        tile.data@[(y - ty) * twi + (x - tx)]
                    } else {
                        old_fb[pixel_index(x, y, w)]
                    },
                forall|i: int| w * h <= i < old_fb.len() ==> fb@[i] == old_fb[i],
            decreases copy_w - k,
        {
            let ghost px = dst_x0 + k;
            let ghost py = dst_y0 + row;
            proof {
                lemma_pixel_bound(px, py, w, h);
                lemma_pixel_bound((src_x0 + k) as int, (src_y0 + row) as int, twi, thi);
                assert(pixel_index(px, py, w) == dst_row_start + k);
            }
            let v = tile.data[(src_row_start + k) as usize];
            assert(v == tile.data@[(py - ty) * twi + (px - tx)]);
            let ghost prev = fb@;
            fb[(dst_row_start + k) as usize] = v;
            assert(fb@ == prev.update(pixel_index(px, py, w), v));
            assert forall|x: int, y: int| 0 <= x < fb_w && 0 <= y < fb_h implies #[trigger] fb@[pixel_index(
                x,
                y,
                w,
            )] == if dst_x0 <= x < dst_x0 + copy_w && (dst_y0 <= y < dst_y0 + row || (y == dst_y0 + row
                && x < dst_x0 + k + 1)) {
                tile.data@[(y - ty) * twi + (x - tx)]
            } else {
                old_fb[pixel_index(x, y, w)]
            } by {
                lemma_pixel_bound(x, y, w, h);
                assert(prev[pixel_index(x, y, w)] == if dst_x0 <= x < dst_x0 + copy_w && (dst_y0 <= y
                    < dst_y0 + row || (y == dst_y0 + row && x < dst_x0 + k)) {
                    tile.data@[(y - ty) * twi + (x - tx)]
                } else {
                    old_fb[pixel_index(x, y, w)]
                });
                if x == px && y == py {
                } else if pixel_index(x, y, w) == pixel_index(px, py, w) {
                    lemma_pixel_inj(x, y, px, py, w);
                }
            }
            proof {
                assert forall|i: int| w * h <= i < old_fb.len() implies fb@[i] == old_fb[i] by {
                    assert(prev[i] == old_fb[i]);
                }
            }
            k = k + 1;
        }
        row = row + 1;
    }
}

// ---------------------------------------------------------------------------
// Row layout
// ---------------------------------------------------------------------------

/// The tile variant `v` draws with: its catalog entry, or the last entry
/// when the catalog is shorter.
pub open spec fn chosen_tile(catalog: Seq<TileAsset>, v: int) -> TileAsset {
    let i = variant_tile_index(v);
    if i < catalog.len() {
        catalog[i]
    } else {
        catalog[catalog.len() - 1]
    }
}

/// Horizontal distance between tile origins.
pub open spec fn tile_pitch(t: TileAsset, v: int) -> int {
    t.width + variant_gap(v)
}

/// Vertical distance between tile rows.
pub open spec fn tile_row_pitch(t: TileAsset, v: int) -> int {
    t.height + variant_gap(v)
}

/// Rows needed to cover `h` pixels: the ceiling of `h / rp`.
pub open spec fn row_count(h: int, rp: int) -> int {
    (h + rp - 1) / rp
}

/// Signed scroll step of row `row` in variant `v`: even rows move right
/// at the base speed, odd rows left at the base speed plus the odd delta.
pub open spec fn row_step(v: int, row: int) -> int {
    if row % 2 == 0 {
        variant_speed(v)
    } else {
        -(variant_speed(v) + variant_odd_delta(v))
    }
}

/// Offsets after one frame: each of the first `n` rows takes its step and
/// is reduced modulo the pitch `p`; the others keep their value.
pub open spec fn advanced_offsets(offs: Seq<int>, v: int, p: int, n: int) -> Seq<int> {
    Seq::new(30, |j: int| if j < n { (offs[j] + row_step(v, j)) % p } else { offs[j] })
}

/// Shift of row `row` modulo the pitch: its offset (zero past the kept
/// rows), the brick stagger of odd rows and the row phase.
pub open spec fn row_shift(offs: Seq<int>, v: int, p: int, row: int) -> int {
    let base = if row < ROW_SLOTS {
        offs[row]
    } else {
        0
    };
    let stagger = if variant_brick(v) && row % 2 == 1 {
        p / 2
    } else {
        0
    };
    (base + stagger + variant_phase_step(v) * row) % p
}

/// The tile pixel shown at `(x, y)`, if a tile covers it: tiles of row
/// `y / rp` sit at every `k * p - shift - p`.
pub open spec fn tile_color(t: TileAsset, v: int, offs: Seq<int>, x: int, y: int) -> Option<u16> {
    let p = tile_pitch(t, v);
    let rp = tile_row_pitch(t, v);
    let dy = y % rp;
    let dx = (x + row_shift(offs, v, p, y / rp) + p) % p;
    if dy < t.height && dx < t.width {
        Some(t.data@[dy * t.width + dx])
    } else {
        None
    }
}

/// Colour of pixel `(x, y)` of a rendered frame: the indicator over the
/// tiles over the background.
pub open spec fn splash_color(
    catalog: Seq<TileAsset>,
    v: int,
    offs: Seq<int>,
    w: int,
    h: int,
    x: int,
    y: int,
) -> u16 {
    if indicator_lit(v, w, h, x, y) {
        INDICATOR_COLOR
    } else {
        match tile_color(chosen_tile(catalog, v), v, offs, x, y) {
            Some(c) => c,
            None => BG_COLOR,
        }
    }
}

/// Offsets the state holds after rendering one frame on a display `h`
/// pixels high.
pub open spec fn frame_offsets(s: SplashView, catalog: Seq<TileAsset>, h: int) -> Seq<int> {
    let t = chosen_tile(catalog, s.variant);
    advanced_offsets(
        s.offsets,
        s.variant,
        tile_pitch(t, s.variant),
        row_count(h, tile_row_pitch(t, s.variant)),
    )
}

/// State after a frame: the frame counters advance and, once the variant
/// has been shown for `VARIANT_DURATION_FRAMES`, the next variant starts
/// with fresh offsets.
pub open spec fn after_frame(s: SplashView, offs: Seq<int>) -> SplashView {
    if s.frame + 1 >= VARIANT_DURATION_FRAMES {
        SplashView {
            variant: next_variant_index(s.variant),
            frame: 0,
            global_frame: s.global_frame + 1,
            offsets: zero_offsets(),
        }
    } else {
        SplashView {
            variant: s.variant,
            frame: s.frame + 1,
            global_frame: s.global_frame + 1,
            offsets: offs,
        }
    }
}

proof fn lemma_cell(x: int, y: int, p: int, rp: int, tw: int, th: int, s: int, row: int, col: int)
    requires
        0 <= tw < p,
        0 <= th < rp,
        0 <= s < p,
        0 <= x,
        0 <= y,
        0 <= row,
        0 <= col,
    ensures
        in_tile_rect(tw, th, col * p - s - p, row * rp, x, y) <==> (y / rp == row && y % rp < th
            && (x + s + p) / p == col && (x + s + p) % p < tw),
        in_tile_rect(tw, th, col * p - s - p, row * rp, x, y) ==> (y - row * rp == y % rp && x - (
        col * p - s - p) == (x + s + p) % p),
{
    lemma_fundamental_div_mod(y, rp);
    lemma_fundamental_div_mod(x + s + p, p);
    let yq = y / rp;
    let xq = (x + s + p) / p;
    assert(rp * yq == yq * rp) by (nonlinear_arith);
    assert(p * xq == xq * p) by (nonlinear_arith);
    if row * rp <= y < row * rp + th {
        lemma_fundamental_div_mod_converse(y, rp, row, y - row * rp);
    }
    if col * p <= x + s + p < col * p + tw {
        lemma_fundamental_div_mod_converse(x + s + p, p, col, x + s + p - col * p);
    }
}

proof fn lemma_last_col(x: int, w: int, s: int, p: int)
    requires
        0 <= x < w,
        0 <= s < p,
    ensures
        (x + s + p) / p < (w + p - 1) / p + 2,
{
    let q = (w + p - 1) / p;
    let big = x + s + p;
    lemma_fundamental_div_mod(w + p - 1, p);
    lemma_fundamental_div_mod(big, p);
    let bq = big / p;
    assert(bq < q + 2) by (nonlinear_arith)
        requires
            p > 0,
            w + p - 1 == p * q + (w + p - 1) % p,
            0 <= (w + p - 1) % p < p,
            big == p * bq + big % p,
            0 <= big % p,
            big <= x + p - 1 + p,
            x < w,
    ;
}

proof fn lemma_row_in_range(y: int, h: int, rp: int)
    requires
        0 <= y < h,
        rp > 0,
    ensures
        y / rp < row_count(h, rp),
{
    let q = (h + rp - 1) / rp;
    lemma_fundamental_div_mod(h + rp - 1, rp);
    lemma_fundamental_div_mod(y, rp);
    let yq = y / rp;
    assert(yq < q) by (nonlinear_arith)
        requires
            rp > 0,
            h + rp - 1 == rp * q + (h + rp - 1) % rp,
            0 <= (h + rp - 1) % rp < rp,
            y == rp * yq + y % rp,
            0 <= y % rp,
            y < h,
    ;
}

proof fn lemma_row_top(row: int, h: int, rp: int)
    requires
        0 <= row < row_count(h, rp),
        rp > 0,
        h >= 0,
    ensures
        row * rp < h,
{
    let q = (h + rp - 1) / rp;
    lemma_fundamental_div_mod(h + rp - 1, rp);
    assert(row * rp < h) by (nonlinear_arith)
        requires
            rp > 0,
            h + rp - 1 == rp * q + (h + rp - 1) % rp,
            0 <= (h + rp - 1) % rp,
            0 <= row < q,
    ;
}

proof fn lemma_col_left(col: int, w: int, p: int)
    requires
        0 <= col < (w + p - 1) / p + 2,
        p > 0,
        w >= 0,
    ensures
        col * p < w + 2 * p,
{
    let q = (w + p - 1) / p;
    lemma_fundamental_div_mod(w + p - 1, p);
    assert(col * p < w + 2 * p) by (nonlinear_arith)
        requires
            p > 0,
            w + p - 1 == p * q + (w + p - 1) % p,
            0 <= (w + p - 1) % p,
            0 <= col < q + 2,
    ;
}

/// Draws the tiles of one row: every multiple of the pitch from zero,
/// shifted left by `shift` and one pitch, enough to cover the width.
fn draw_row(
    fb: &mut [u16],
    width: u32,
    height: u32,
    tile: &TileAsset,
    row: u32,
    row_pitch: u32,
    pitch: u32,
    shift: i32,
    tiles_per_row: u32,
)
    requires
        tile.wf(),
        width * height <= u32::MAX,
        width < MAX_DIMENSION,
        height < MAX_DIMENSION,
        old(fb)@.len() >= width * height,
        tile.width < pitch <= MAX_PITCH,
        tile.height < row_pitch,
        0 <= shift < pitch,
        row * row_pitch < height,
        tiles_per_row == (width + pitch - 1) / (pitch as int) + 2,
    ensures
        final(fb)@.len() == old(fb)@.len(),
        forall|x: int, y: int|
            0 <= x < width && 0 <= y < height ==> #[trigger] final(fb)@[pixel_index(x, y, width as int)]
                == if y / (row_pitch as int) == row && y % (row_pitch as int) < tile.height && (x
                + shift + pitch) % (pitch as int) < tile.width {
                tile.data@[(y % (row_pitch as int)) * tile.width + (x + shift + pitch) % (
                pitch as int)]
            } else {
                old(fb)@[pixel_index(x, y, width as int)]
            },
        forall|i: int| width * height <= i < old(fb)@.len() ==> final(fb)@[i] == old(fb)@[i],
{
    let ghost w = width as int;
    let ghost h = height as int;
    let ghost p = pitch as int;
    let ghost rp = row_pitch as int;
    let ghost s = shift as int;
    let ghost old_fb = fb@;
    let row_y = row * row_pitch;
    let wrap = pitch as i32;
    let mut col: u32 = 0;
    while col < tiles_per_row
        invariant
            tile.wf(),
            w == width,
            h == height,
            p == pitch,
            rp == row_pitch,
            s == shift,
            wrap == pitch,
            row_y == row * row_pitch,
            row_y < height,
            width * height <= u32::MAX,
            width < MAX_DIMENSION,
            height < MAX_DIMENSION,
            fb@.len() == old_fb.len(),
            old_fb.len() >= width * height,
            tile.width < pitch <= MAX_PITCH,
            tile.height < row_pitch,
            0 <= shift < pitch,
            tiles_per_row == (w + p - 1) / p + 2,
            col <= tiles_per_row,
            forall|x: int, y: int|
                0 <= x < width && 0 <= y < height ==> #[trigger] fb@[pixel_index(x, y, w)] == if y
                    / rp == row && y % rp < tile.height && (x + s + p) % p < tile.width && (x + s
                    + p) / p < col {
                    tile.data@[(y % rp) * tile.width + (x + s + p) % p]
                } else {
                    old_fb[pixel_index(x, y, w)]
                },
            forall|i: int| w * h <= i < old_fb.len() ==> fb@[i] == old_fb[i],
        decreases tiles_per_row - col,
    {
        proof {
            lemma_col_left(col as int, w, p);
        }
        let tile_x = (col as i32) * wrap - shift - wrap;
        let ghost prev = fb@;
        blit_tile(fb, width, height, tile, tile_x, row_y as i32);
        assert forall|x: int, y: int| 0 <= x < width && 0 <= y < height implies #[trigger] fb@[pixel_index(
            x,
            y,
            w,
        )] == if y / rp == row && y % rp < tile.height && (x + s + p) % p < tile.width && (x + s + p)
            / p < col + 1 {
            tile.data@[(y % rp) * tile.width + (x + s + p) % p]
        } else {
            old_fb[pixel_index(x, y, w)]
        } by {
            lemma_cell(
                x,
                y,
                p,
                rp,
                tile.width as int,
                tile.height as int,
                s,
                row as int,
                col as int,
            );
            assert(prev[pixel_index(x, y, w)] == if y / rp == row && y % rp < tile.height && (x + s
                + p) % p < tile.width && (x + s + p) / p < col {
                tile.data@[(y % rp) * tile.width + (x + s + p) % p]
            } else {
                old_fb[pixel_index(x, y, w)]
            });
        }
        col = col + 1;
    }
    assert forall|x: int, y: int| 0 <= x < width && 0 <= y < height implies #[trigger] fb@[pixel_index(
        x,
        y,
        w,
    )] == if y / rp == row && y % rp < tile.height && (x + s + p) % p < tile.width {
        tile.data@[(y % rp) * tile.width + (x + s + p) % p]
    } else {
        old_fb[pixel_index(x, y, w)]
    } by {
        lemma_last_col(x, w, s, p);
    }
}

impl SplashState {
    /// Steps the scroll offsets of the first `n` rows (at most all of them)
    /// and reduces each modulo `pitch`.
    fn advance_offsets(&mut self, cfg: VariantConfig, pitch: u32, n: usize)
        requires
            old(self).wf(),
            cfg == spec_variant_config(old(self)@.variant),
            2 <= pitch <= MAX_PITCH,
        ensures
            final(self).wf(),
            final(self)@ == (SplashView {
                offsets: advanced_offsets(old(self)@.offsets, old(self)@.variant, pitch as int, n as int),
                ..old(self)@
            }),
    {
        let ghost v = self@.variant;
        let ghost start = self@;
        proof {
            lemma_config_matches(v);
            self.lemma_view_offsets();
        }
        assert forall|j: int| 0 <= j < 30 implies 0 <= #[trigger] self.row_offsets@[j] < MAX_PITCH
            && self.row_offsets@[j] as int == start.offsets[j] by {
            assert(start.offsets[j] == self.row_offsets@[j] as int);
        }
        let limit = if n < ROW_SLOTS {
            n
        } else {
            ROW_SLOTS
        };
        let wrap = pitch as i32;
        let mut row: usize = 0;
        while row < limit
            invariant
                start.variant == v,
                splash_inv(start),
                self.variant == start.variant,
                self.frame == start.frame,
                self.global_frame == start.global_frame,
                cfg == spec_variant_config(v),
                0 <= v < 3,
                limit <= ROW_SLOTS,
                limit <= n,
                n < ROW_SLOTS ==> limit == n,
                row <= limit,
                wrap == pitch,
                2 <= pitch <= MAX_PITCH,
                forall|j: int|
                    0 <= j < 30 ==> #[trigger] self.row_offsets@[j] as int == if j < row {
                        (start.offsets[j] + row_step(v, j)) % (pitch as int)
                    } else {
                        start.offsets[j]
                    },
                forall|j: int| 0 <= j < 30 ==> 0 <= #[trigger] self.row_offsets@[j] < MAX_PITCH,
            decreases limit - row,
        {
            proof {
                lemma_config_matches(v);
            }
            let speed = cfg.speed as i32 + if row % 2 != 0 {
                cfg.odd_row_speed_delta as i32
            } else {
                0
            };
            let cur = self.row_offsets[row];
            assert(cur as int == start.offsets[row as int]);
            let next = if row % 2 == 0 {
                cur + speed
            } else {
                cur - speed
            };
            assert(next == start.offsets[row as int] + row_step(v, row as int));
            let m = match next.checked_rem_euclid(wrap) {
                Some(m) => m,
                None => next,
            };
            self.row_offsets[row] = m;
            row = row + 1;
        }
        assert(self@.offsets =~= advanced_offsets(start.offsets, v, pitch as int, n as int));
    }
}

/// Fills the first `total` pixels with the background colour.
fn clear_frame(fb: &mut [u16], total: usize)
    requires
        total <= old(fb)@.len(),
    ensures
        final(fb)@.len() == old(fb)@.len(),
        forall|i: int| 0 <= i < total ==> final(fb)@[i] == BG_COLOR,
        forall|i: int| total <= i < old(fb)@.len() ==> final(fb)@[i] == old(fb)@[i],
{
    let ghost old_fb = fb@;
    let mut i: usize = 0;
    while i < total
        invariant
            total <= old_fb.len(),
            fb@.len() == old_fb.len(),
            i <= total,
            forall|j: int| 0 <= j < i ==> fb@[j] == BG_COLOR,
            forall|j: int| i <= j < old_fb.len() ==> fb@[j] == old_fb[j],
        decreases total - i,
    {
        fb[i] = BG_COLOR;
        i = i + 1;
    }
}

/// Renders one frame of the splash into a row-major RGB565 framebuffer of
/// at least `width * height` pixels, then advances the animation. Returns
/// whether the variant just cycled.
pub fn render_frame(
    fb: &mut [u16],
    width: u32,
    height: u32,
    state: &mut SplashState,
    catalog: &[TileAsset],
) -> (cycled: bool)
    requires
        old(state).wf(),
        old(state)@.global_frame < u32::MAX,
        catalog@.len() > 0,
        forall|i: int| 0 <= i < catalog@.len() ==> #[trigger] catalog@[i].wf(),
        width < MAX_DIMENSION,
        height < MAX_DIMENSION,
        width * height <= u32::MAX,
        old(fb)@.len() >= width * height,
    ensures
        final(state).wf(),
        cycled == (old(state)@.frame + 1 >= VARIANT_DURATION_FRAMES),
        final(state)@ == after_frame(old(state)@, frame_offsets(old(state)@, catalog@, height as int)),
        final(fb)@.len() == old(fb)@.len(),
        forall|x: int, y: int|
            0 <= x < width && 0 <= y < height ==> #[trigger] final(fb)@[pixel_index(x, y, width as int)]
                == splash_color(
                catalog@,
                old(state)@.variant,
                frame_offsets(old(state)@, catalog@, height as int),
                width as int,
                height as int,
                x,
                y,
            ),
        forall|i: int| width * height <= i < old(fb)@.len() ==> final(fb)@[i] == old(fb)@[i],
{
    let ghost start = state@;
    let v = state.variant;
    let cfg = variant_config(v);
    proof {
        lemma_config_matches(v as int);
    }
    let cat_len = catalog.len();
    let tile: &TileAsset = if cfg.tile_index < cat_len {
        &catalog[cfg.tile_index]
    } else {
        &catalog[cat_len - 1]
    };
    let ghost t = chosen_tile(catalog@, v as int);
    assert(*tile == t);
    assert(tile.wf());
    let tw = tile.width as u32;
    let th = tile.height as u32;
    let gap = (TILE_GAP + cfg.extra_gap) as u32;
    let pitch = tw + gap;
    let row_pitch = th + gap;
    if pitch == 0 || row_pitch == 0 {
        return false;
    }
    let num_rows = ((height + row_pitch - 1) / row_pitch) as usize;
    let tiles_per_row = ((width + pitch - 1) / pitch) + 2;
    let ghost p = pitch as int;
    let ghost rp = row_pitch as int;
    let ghost w = width as int;
    let ghost h = height as int;
    assert(p == tile_pitch(t, v as int));
    assert(rp == tile_row_pitch(t, v as int));
    assert(num_rows == row_count(h, rp));
    state.advance_offsets(cfg, pitch, num_rows);
    let ghost offs = state@.offsets;
    assert(offs == frame_offsets(start, catalog@, h));
    proof {
        state.lemma_view_offsets();
    }
    let total = (width * height) as usize;
    clear_frame(fb, total);
    let ghost old_fb = fb@;
    assert forall|x: int, y: int| 0 <= x < width && 0 <= y < height implies #[trigger] fb@[pixel_index(
        x,
        y,
        w,
    )] == BG_COLOR by {
        lemma_pixel_bound(x, y, w, h);
    }
    let mut row: usize = 0;
    while row < num_rows
        invariant
            tile.wf(),
            *tile == t,
            cfg == spec_variant_config(v as int),
            0 <= v < 3,
            p == pitch,
            rp == row_pitch,
            w == width,
            h == height,
            p == tile_pitch(t, v as int),
            rp == tile_row_pitch(t, v as int),
            tw == t.width,
            th == t.height,
            gap == variant_gap(v as int),
            pitch == tw + gap,
            row_pitch == th + gap,
            num_rows == row_count(h, rp),
            tiles_per_row == (w + p - 1) / p + 2,
            width < MAX_DIMENSION,
            height < MAX_DIMENSION,
            width * height <= u32::MAX,
            fb@.len() == old_fb.len(),
            old_fb.len() >= width * height,
            state@.offsets == offs,
            forall|j: int| 0 <= j < 30 ==> #[trigger] offs[j] == state.row_offsets@[j] as int,
            forall|j: int| 0 <= j < 30 ==> 0 <= #[trigger] offs[j] < MAX_PITCH,
            row <= num_rows,
            forall|x: int, y: int|
                0 <= x < width && 0 <= y < height ==> #[trigger] fb@[pixel_index(x, y, w)] == if y
                    / rp < row && tile_color(t, v as int, offs, x, y) is Some {
                    tile_color(t, v as int, offs, x, y)->0
                } else {
                    BG_COLOR
                },
            forall|i: int| w * h <= i < old_fb.len() ==> fb@[i] == old_fb[i],
        decreases num_rows - row,
    {
        proof {
            lemma_config_matches(v as int);
            lemma_row_top(row as int, h, rp);
            if v == 2 {
                assert(8 * row <= row * rp) by (nonlinear_arith)
                    requires
                        rp >= 8,
                        row >= 0,
                ;
            }
            assert(row * rp >= row) by (nonlinear_arith)
                requires
                    rp >= 1,
                    row >= 0,
            ;
        }
        let row_y = (row as u32) * row_pitch;
        let base_offset: i32 = if row < ROW_SLOTS {
            state.row_offsets[row]
        } else {
            0
        };
        let stagger: i32 = if cfg.brick_stagger && row % 2 != 0 {
            pitch as i32 / 2
        } else {
            0
        };
        let phase: i32 = cfg.row_phase_step as i32 * row as i32;
        let total_offset = base_offset + stagger + phase;
        let shift: i32 = match total_offset.checked_rem_euclid(pitch as i32) {
            Some(m) => m,
            None => 0,
        };
        assert(shift == row_shift(offs, v as int, p, row as int));
        let ghost prev = fb@;
        draw_row(fb, width, height, tile, row as u32, row_pitch, pitch, shift, tiles_per_row);
        assert forall|x: int, y: int| 0 <= x < width && 0 <= y < height implies #[trigger] fb@[pixel_index(
            x,
            y,
            w,
        )] == if y / rp < row + 1 && tile_color(t, v as int, offs, x, y) is Some {
            tile_color(t, v as int, offs, x, y)->0
        } else {
            BG_COLOR
        } by {
            lemma_pixel_bound(x, y, w, h);
            assert(prev[pixel_index(x, y, w)] == if y / rp < row && tile_color(
                t,
                v as int,
                offs,
                x,
                y,
            ) is Some {
                tile_color(t, v as int, offs, x, y)->0
            } else {
                BG_COLOR
            });
        }
        row = row + 1;
    }
    assert forall|x: int, y: int| 0 <= x < width && 0 <= y < height implies #[trigger] fb@[pixel_index(
        x,
        y,
        w,
    )] == match tile_color(t, v as int, offs, x, y) {
        Some(c) => c,
        None => BG_COLOR,
    } by {
        lemma_pixel_bound(x, y, w, h);
        lemma_row_in_range(y, h, rp);
    }
    render_variant_indicator(fb, width, height, v);
    state.frame = state.frame + 1;
    state.global_frame = state.global_frame + 1;
    let cycled = state.frame >= VARIANT_DURATION_FRAMES;
    if cycled {
        state.next_variant();
    }
    cycled
}

/// Reads a touch gesture: `Some(true)` for a swipe right, `Some(false)` for
/// a swipe left (more than 50 pixels horizontally), `None` for a tap.
pub fn classify_touch(x1: i32, y1: i32, x2: i32, y2: i32) -> (r: Option<bool>)
    requires
        i32::MIN <= x2 - x1 <= i32::MAX,
        x2 - x1 != i32::MIN,
    ensures
        r == (if x2 - x1 > 50 || x2 - x1 < -50 {
            Some(x2 - x1 > 0)
        } else {
            None
        }),
{
    let dx = x2 - x1;
    let adx = if dx < 0 {
        -dx
    } else {
        dx
    };
    if adx > 50 {
        Some(dx > 0)
    } else {
        None
    }
}

} // verus!
