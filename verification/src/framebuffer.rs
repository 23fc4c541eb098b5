//! Double-buffered raw framebuffer: drawing goes to the back buffer, a
//! flip shows it and copies it forward so the next frame starts from it.
use vstd::prelude::*;
use crate::boot_splash::{lemma_pixel_bound, lemma_pixel_inj, pixel_index};

verus! {

/// Abstract framebuffer: both buffers and which one is on screen.
pub struct FramebufferView {
    pub buf0: Seq<u32>,
    pub buf1: Seq<u32>,
    pub front_is_0: bool,
}

/// The buffer drawing goes to.
pub open spec fn back_of(v: FramebufferView) -> Seq<u32> {
    if v.front_is_0 {
        v.buf1
    } else {
        v.buf0
    }
}

/// The buffer on screen.
pub open spec fn front_of(v: FramebufferView) -> Seq<u32> {
    if v.front_is_0 {
        v.buf0
    } else {
        v.buf1
    }
}

pub struct RawFramebuffer {
    buf0: Vec<u32>,
    buf1: Vec<u32>,
    front_is_0: bool,
}

impl View for RawFramebuffer {
    type V = FramebufferView;

    closed spec fn view(&self) -> FramebufferView {
        FramebufferView { buf0: self.buf0@, buf1: self.buf1@, front_is_0: self.front_is_0 }
    }
}

/// Overwrites `dst` with `src`.
fn copy_into(dst: &mut Vec<u32>, src: &Vec<u32>)
    requires
        old(dst)@.len() == src@.len(),
    ensures
        final(dst)@ == src@,
{
    let mut i: usize = 0;
    while i < src.len()
        invariant
            dst@.len() == src@.len(),
            i <= src@.len(),
            forall|j: int| 0 <= j < i ==> dst@[j] == src@[j],
        decreases src@.len() - i,
    {
        dst.set(i, src[i]);
        i = i + 1;
    }
    assert(dst@ =~= src@);
}

impl RawFramebuffer {
    /// Takes two equally sized buffers; the second starts as a copy of the
    /// first, which is on screen.
    pub fn new_double(buf0: Vec<u32>, buf1: Vec<u32>) -> (fb: Self)
        requires
            buf0@.len() == buf1@.len(),
        ensures
            fb@ == (FramebufferView { buf0: buf0@, buf1: buf0@, front_is_0: true }),
    {
        let mut buf1 = buf1;
        copy_into(&mut buf1, &buf0);
        Self { buf0, buf1, front_is_0: true }
    }

    fn back_buffer(&mut self) -> (b: &mut [u32])
        ensures
            b@ == back_of(old(self)@),
            final(self)@ == (if old(self)@.front_is_0 {
                FramebufferView { buf1: final(b)@, ..old(self)@ }
            } else {
                FramebufferView { buf0: final(b)@, ..old(self)@ }
            }),
    {
        if self.front_is_0 {
            self.buf1.as_mut_slice()
        } else {
            self.buf0.as_mut_slice()
        }
    }

    /// Copies the front buffer into the back buffer.
    fn sync_back_buffer(&mut self)
        requires
            old(self)@.buf0.len() == old(self)@.buf1.len(),
        ensures
            final(self)@ == (FramebufferView {
                buf0: front_of(old(self)@),
                buf1: front_of(old(self)@),
                front_is_0: old(self)@.front_is_0,
            }),
    {
        if self.front_is_0 {
            copy_into(&mut self.buf1, &self.buf0);
        } else {
            copy_into(&mut self.buf0, &self.buf1);
        }
    }

    /// The back buffer, for drawing.
    pub fn as_raw(&mut self) -> (b: &mut [u32])
        ensures
            b@ == back_of(old(self)@),
            final(self)@ == (if old(self)@.front_is_0 {
                FramebufferView { buf1: final(b)@, ..old(self)@ }
            } else {
                FramebufferView { buf0: final(b)@, ..old(self)@ }
            }),
    {
        self.back_buffer()
    }

    /// The buffer on screen.
    pub fn front(&self) -> (b: &[u32])
        ensures
            b@ == front_of(self@),
    {
        if self.front_is_0 {
            self.buf0.as_slice()
        } else {
            self.buf1.as_slice()
        }
    }

    /// Shows the back buffer and copies it into the new back buffer, so
    /// drawing continues from what is on screen. The display controller is
    /// pointed at [`RawFramebuffer::front`] by the board code.
    pub fn present(&mut self)
        requires
            old(self)@.buf0.len() == old(self)@.buf1.len(),
        ensures
            final(self)@.front_is_0 == !old(self)@.front_is_0,
            final(self)@.buf0 == back_of(old(self)@),
            final(self)@.buf1 == back_of(old(self)@),
    {
        self.front_is_0 = !self.front_is_0;
        self.sync_back_buffer();
    }
}

/// ARGB8888 word of an opaque RGB colour.
pub open spec fn argb(r: u8, g: u8, b: u8) -> u32 {
    (0xFF00_0000 + r * 0x1_0000 + g * 0x100 + b) as u32
}

proof fn lemma_argb(r: u8, g: u8, b: u8)
    ensures
        (0xFF00_0000u32 | ((r as u32) << 16) | ((g as u32) << 8) | (b as u32)) == (0xFF00_0000
            + r * 0x1_0000 + g * 0x100 + b) as u32,
{
    assert((0xFF00_0000u32 | ((r as u32) << 16) | ((g as u32) << 8) | (b as u32)) == (0xFF00_0000
        + r * 0x1_0000 + g * 0x100 + b) as u32) by (bit_vector);
}

/// Packs an opaque RGB colour into an ARGB8888 word.
pub fn pack_argb(r: u8, g: u8, b: u8) -> (v: u32)
    ensures
        v == argb(r, g, b),
{
    proof {
        lemma_argb(r, g, b);
    }
    0xFF00_0000u32 | ((r as u32) << 16) | ((g as u32) << 8) | (b as u32)
}

/// The framebuffer with `back` as its back buffer.
pub open spec fn with_back(v: FramebufferView, back: Seq<u32>) -> FramebufferView {
    if v.front_is_0 {
        FramebufferView { buf1: back, ..v }
    } else {
        FramebufferView { buf0: back, ..v }
    }
}

/// Whether pixel `(x, y)` lies on a `width` by `height` display.
pub open spec fn on_display(x: int, y: int, width: int, height: int) -> bool {
    0 <= x < width && 0 <= y < height
}

/// Rows (or columns) a rectangle covers on a display side of `limit`
/// pixels: from `max(start, 0)` to `min(start + size, limit)`.
pub open spec fn clip_low(start: int) -> int {
    if start > 0 {
        start
    } else {
        0
    }
}

pub open spec fn clip_high(start: int, size: int, limit: int) -> int {
    if start + size < limit {
        start + size
    } else {
        limit
    }
}

impl RawFramebuffer {
    /// Sets pixel `(x, y)` of the back buffer of a `width` by `height`
    /// display to an opaque colour; pixels off the display are skipped.
    pub fn draw_pixel(&mut self, width: u32, height: u32, x: i32, y: i32, r: u8, g: u8, b: u8)
        requires
            on_display(x as int, y as int, width as int, height as int) ==> pixel_index(
                x as int,
                y as int,
                width as int,
            ) < back_of(old(self)@).len(),
        ensures
            final(self)@ == with_back(
                old(self)@,
                if on_display(x as int, y as int, width as int, height as int) {
                    back_of(old(self)@).update(pixel_index(x as int, y as int, width as int), argb(r, g, b))
                } else {
                    back_of(old(self)@)
                },
            ),
    {
        if x >= 0 && y >= 0 && (x as u32) < width && (y as u32) < height {
            let raw = pack_argb(r, g, b);
            proof {
                lemma_pixel_bound(x as int, y as int, width as int, height as int);
            }
            let back = self.back_buffer();
            let blen = back.len();
            assert(pixel_index(x as int, y as int, width as int) < blen);
            let idx = (y as usize) * (width as usize) + (x as usize);
            back[idx] = raw;
        } else {
            assert(old(self)@ == with_back(old(self)@, back_of(old(self)@)));
        }
    }

    /// Fills the part of the rectangle at `(x, y)` of size `w` by `h` that
    /// lies on a `width` by `height` display with an opaque colour.
    pub fn fill_rect(
        &mut self,
        width: u32,
        height: u32,
        x: i32,
        y: i32,
        w: u32,
        h: u32,
        r: u8,
        g: u8,
        b: u8,
    )
        requires
            width <= i32::MAX,
            height <= i32::MAX,
            w <= i32::MAX,
            h <= i32::MAX,
            i32::MIN <= x + w <= i32::MAX,
            i32::MIN <= y + h <= i32::MAX,
            y + h >= 0,
            clip_low(y as int) < clip_high(y as int, h as int, height as int) ==> (x + w >= 0
                && x <= width),
            width * height <= back_of(old(self)@).len(),
        ensures
            back_of(final(self)@).len() == back_of(old(self)@).len(),
            final(self)@ == with_back(old(self)@, back_of(final(self)@)),
            forall|px: int, py: int|
                on_display(px, py, width as int, height as int) ==> #[trigger] back_of(
                    final(self)@,
                )[pixel_index(px, py, width as int)] == if clip_low(y as int) <= py < clip_high(
                    y as int,
                    h as int,
                    height as int,
                ) && clip_low(x as int) <= px < clip_high(x as int, w as int, width as int) {
                    argb(r, g, b)
                } else {
                    back_of(old(self)@)[pixel_index(px, py, width as int)]
                },
            forall|i: int|
                width * height <= i < back_of(old(self)@).len() ==> back_of(final(self)@)[i]
                    == back_of(old(self)@)[i],
    {
        let top: i32 = if y > 0 {
            y
        } else {
            0
        };
        let bottom: i32 = if y + (h as i32) < height as i32 {
            y + (h as i32)
        } else {
            height as i32
        };
        let left: i32 = if x > 0 {
            x
        } else {
            0
        };
        let right: i32 = if x + (w as i32) < width as i32 {
            x + (w as i32)
        } else {
            width as i32
        };
        let raw = pack_argb(r, g, b);
        let ghost wi = width as int;
        let ghost hi = height as int;
        let ghost start = back_of(self@);
        let ghost view0 = self@;
        let back = self.back_buffer();
        let blen = back.len();
        let mut row = top;
        while row < bottom
            invariant
                raw == argb(r, g, b),
                blen == back@.len(),
                back@.len() == start.len(),
                wi == width,
                hi == height,
                width * height <= start.len(),
                0 <= top <= row,
                top < bottom ==> row <= bottom,
                top >= bottom ==> row == top,
                bottom <= height,
                top == clip_low(y as int),
                bottom == clip_high(y as int, h as int, height as int),
                left == clip_low(x as int),
                right == clip_high(x as int, w as int, width as int),
                top < bottom ==> 0 <= left <= right <= width,
                forall|px: int, py: int|
                    on_display(px, py, wi, hi) ==> #[trigger] back@[pixel_index(px, py, wi)] == if top
                        <= py < row && left <= px < right {
                        argb(r, g, b)
                    } else {
                        start[pixel_index(px, py, wi)]
                    },
                forall|i: int| wi * hi <= i < start.len() ==> back@[i] == start[i],
            decreases bottom - row,
        {
            let mut col = left;
            while col < right
                invariant
                    raw == argb(r, g, b),
                    blen == back@.len(),
                    back@.len() == start.len(),
                    wi == width,
                    hi == height,
                    width * height <= start.len(),
                    0 <= top <= row < bottom <= height,
                    0 <= left <= col <= right <= width,
                    forall|px: int, py: int|
                        on_display(px, py, wi, hi) ==> #[trigger] back@[pixel_index(px, py, wi)]
                            == if (top <= py < row && left <= px < right) || (py == row && left
                            <= px < col) {
                            argb(r, g, b)
                        } else {
                            start[pixel_index(px, py, wi)]
                        },
                    forall|i: int| wi * hi <= i < start.len() ==> back@[i] == start[i],
                decreases right - col,
            {
                proof {
                    lemma_pixel_bound(col as int, row as int, wi, hi);
                }
                let idx = (row as usize) * (width as usize) + (col as usize);
                let ghost prev = back@;
                back[idx] = raw;
                proof {
                    assert forall|px: int, py: int| on_display(px, py, wi, hi) implies #[trigger] back@[pixel_index(
                        px,
                        py,
                        wi,
                    )] == if (top <= py < row && left <= px < right) || (py == row && left <= px
                        < col + 1) {
                        argb(r, g, b)
                    } else {
                        start[pixel_index(px, py, wi)]
                    } by {
                        lemma_pixel_bound(px, py, wi, hi);
                        assert(prev[pixel_index(px, py, wi)] == if (top <= py < row && left <= px
                            < right) || (py == row && left <= px < col) {
                            argb(r, g, b)
                        } else {
                            start[pixel_index(px, py, wi)]
                        });
                        if px == col && py == row {
                        } else if pixel_index(px, py, wi) == idx as int {
                            lemma_pixel_inj(px, py, col as int, row as int, wi);
                        }
                    }
                    assert forall|i: int| wi * hi <= i < start.len() implies back@[i] == start[i] by {
                        assert(prev[i] == start[i]);
                    }
                }
                col = col + 1;
            }
            row = row + 1;
        }
    }

    /// Fills the whole back buffer with an opaque colour.
    pub fn clear_rgb(&mut self, r: u8, g: u8, b: u8)
        ensures
            final(self)@ == with_back(
                old(self)@,
                Seq::new(back_of(old(self)@).len(), |i: int| argb(r, g, b)),
            ),
    {
        let raw = pack_argb(r, g, b);
        let back = self.back_buffer();
        let n = back.len();
        let mut i: usize = 0;
        while i < n
            invariant
                raw == argb(r, g, b),
                n == back@.len(),
                i <= n,
                forall|j: int| 0 <= j < i ==> back@[j] == argb(r, g, b),
            decreases n - i,
        {
            let ghost prev = back@;
            back[i] = raw;
            assert(back@ == prev.update(i as int, raw));
            i = i + 1;
        }
        assert(back@ =~= Seq::new(n as nat, |i: int| argb(r, g, b)));
    }
}

} // verus!
