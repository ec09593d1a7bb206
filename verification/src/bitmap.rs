//! The pixel store behind a bitmap: a rectangular buffer of 32-bit ARGB
//! pixels with a transparency flag.
//!
//! Pixels are stored row by row; the pixel at column `x` of row `y` sits at
//! index `y * width + x`. On an opaque bitmap every stored pixel carries alpha
//! 0xFF. A disposed bitmap has no pixels and zero size.

use vstd::prelude::*;

verus! {

/// The alpha byte forced onto every pixel of an opaque bitmap.
pub open spec fn opaque(color: u32) -> u32 {
    color | 0xFF00_0000
}

/// The pixel value a color takes when stored: opaque bitmaps force alpha.
pub open spec fn stored_pixel(transparency: bool, color: u32) -> u32 {
    if transparency {
        color
    } else {
        opaque(color)
    }
}

/// How many pixels of the buffer equal `c`.
pub open spec fn count_eq(s: Seq<u32>, c: u32) -> nat
    decreases s.len(),
{
    if s.len() == 0 {
        0
    } else {
        (if s[0] == c {
            1nat
        } else {
            0nat
        }) + count_eq(s.drop_first(), c)
    }
}

/// Overwriting a pixel equal to `c` with something else lowers the count of
/// `c`-colored pixels by one.
pub proof fn lemma_count_eq_update(s: Seq<u32>, i: int, v: u32, c: u32)
    requires
        0 <= i < s.len(),
        s[i] == c,
        v != c,
    ensures
        count_eq(s.update(i, v), c) + 1 == count_eq(s, c),
    decreases s.len(),
{
    if i == 0 {
        assert(s.update(0, v).drop_first() =~= s.drop_first());
    } else {
        assert(s.update(i, v).drop_first() =~= s.drop_first().update(i - 1, v));
        lemma_count_eq_update(s.drop_first(), i - 1, v, c);
    }
}

/// One step of the linear congruential generator behind `noise`.
pub open spec fn lcg(s: u32) -> u32 {
    ((s as int * 1664525 + 1013904223) % 0x1_0000_0000) as u32
}

/// The generator state used for the `i`-th pixel, seeded by the caller.
pub open spec fn noise_state(seed: i32, i: int) -> u32
    decreases i,
{
    if i <= 0 {
        lcg(seed as u32)
    } else {
        lcg(noise_state(seed, i - 1))
    }
}

/// One channel drawn from a generator state: a value in `low ..= high`.
pub open spec fn noise_channel(state: u32, shift: u32, low: u8, high: u8) -> u32 {
    (low + (((state >> shift) & 0xFF) % (high - low + 1) as u32)) as u32
}

/// The pixel the `noise` fill stores for a given generator state: each
/// selected channel gets a value in `low ..= high`, an unselected color
/// channel is 0, and the alpha channel is 0xFF unless selected. With
/// `gray_scale` the three color channels share one value.
pub open spec fn noise_pixel(
    state: u32,
    low: u8,
    high: u8,
    channel_options: u8,
    gray_scale: bool,
) -> u32 {
    let r = noise_channel(state, 0, low, high);
    let g = noise_channel(state, 8, low, high);
    let b = noise_channel(state, 16, low, high);
    let al = if channel_options & 8 == 8 {
        noise_channel(state, 24, low, high)
    } else {
        0xFFu32
    };
    if gray_scale {
        (al << 24) | (r << 16) | (r << 8) | r
    } else {
        ((al << 24) | ((if channel_options & 1 == 1 {
            r
        } else {
            0
        }) << 16) | ((if channel_options & 2 == 2 {
            g
        } else {
            0
        }) << 8) | (if channel_options & 4 == 4 {
            b
        } else {
            0
        }))
    }
}

/// The pixel-wise difference `compare` reports: equal pixels give 0; pixels
/// differing in their color bytes give an opaque pixel holding the bytewise
/// differences; pixels equal in color but differing in alpha give white under
/// the alpha difference.
pub open spec fn diff_pixel(p: u32, q: u32) -> u32 {
    if p == q {
        0
    } else if p & 0x00FF_FFFF != q & 0x00FF_FFFF {
        opaque(((((p & 0x00FF_FFFF) as int - (q & 0x00FF_FFFF) as int) % 0x0100_0000) as u32))
    } else {
        (((((p >> 24) as int - (q >> 24) as int) % 0x100) as u32) << 24) | 0x00FF_FFFF
    }
}

/// A rectangular 32-bit pixel buffer with a transparency flag.
#[derive(Clone, Debug)]
pub struct BitmapData {
    pub width: u32,
    pub height: u32,
    pub transparency: bool,
    pub pixels: Vec<u32>,
    pub disposed: bool,
}

impl BitmapData {
    /// The buffer holds exactly one pixel per coordinate.
    pub open spec fn wf(&self) -> bool {
        self.pixels@.len() == self.width as int * self.height as int
    }

    pub open spec fn idx(&self, x: int, y: int) -> int {
        y * self.width as int + x
    }

    pub open spec fn in_bounds(&self, x: int, y: int) -> bool {
        0 <= x < self.width as int && 0 <= y < self.height as int
    }

    /// The pixel at a coordinate.
    pub open spec fn pixel_at(&self, x: int, y: int) -> u32 {
        self.pixels@[self.idx(x, y)]
    }

    /// An empty, zero-sized bitmap.
    pub fn new() -> (r: BitmapData)
        ensures
            r.wf(),
            r.width == 0,
            r.height == 0,
            !r.disposed,
            r.transparency,
    {
        BitmapData { width: 0, height: 0, transparency: true, pixels: Vec::new(), disposed: false }
    }

    /// Fill a fresh `width` by `height` buffer with the fill color, stored
    /// per the transparency flag.
    pub fn init_pixels(&mut self, width: u32, height: u32, transparency: bool, fill_color: i32)
        requires
            width as int * height as int <= usize::MAX,
        ensures
            final(self).wf(),
            final(self).width == width,
            final(self).height == height,
            final(self).transparency == transparency,
            final(self).disposed == old(self).disposed,
            final(self).pixels@.len() == width as int * height as int,
            forall|i: int|
                0 <= i < final(self).pixels@.len() ==> final(self).pixels@[i] == stored_pixel(
                    transparency,
                    fill_color as u32,
                ),
    {
        let n: usize = (width as usize) * (height as usize);
        let fill: u32 = if transparency {
            fill_color as u32
        } else {
            (fill_color as u32) | 0xFF00_0000
        };
        let mut pixels: Vec<u32> = Vec::new();
        let mut i: usize = 0;
        while i < n
            invariant
                i <= n,
                fill == stored_pixel(transparency, fill_color as u32),
                pixels@.len() == i,
                forall|j: int|
                    0 <= j < i ==> pixels@[j] == stored_pixel(transparency, fill_color as u32),
            decreases n - i,
        {
            pixels.push(fill);
            i = i + 1;
        }
        self.width = width;
        self.height = height;
        self.transparency = transparency;
        self.pixels = pixels;
    }

    /// Replace the whole buffer.
    pub fn set_pixels(&mut self, width: u32, height: u32, transparency: bool, pixels: Vec<u32>)
        requires
            pixels@.len() == width as int * height as int,
        ensures
            final(self).wf(),
            *final(self) == (BitmapData {
                width,
                height,
                transparency,
                pixels: final(self).pixels,
                disposed: old(self).disposed,
            }),
            final(self).pixels@ == pixels@,
    {
        self.width = width;
        self.height = height;
        self.transparency = transparency;
        self.pixels = pixels;
    }

    pub fn width(&self) -> (r: u32)
        ensures
            r == self.width,
    {
        self.width
    }

    pub fn height(&self) -> (r: u32)
        ensures
            r == self.height,
    {
        self.height
    }

    pub fn transparency(&self) -> (r: bool)
        ensures
            r == self.transparency,
    {
        self.transparency
    }

    pub fn disposed(&self) -> (r: bool)
        ensures
            r == self.disposed,
    {
        self.disposed
    }

    pub fn pixels(&self) -> (r: &Vec<u32>)
        ensures
            r@ == self.pixels@,
    {
        &self.pixels
    }

    /// Drop the buffer and mark the bitmap disposed.
    pub fn dispose(&mut self)
        ensures
            final(self).wf(),
            final(self).width == 0,
            final(self).height == 0,
            final(self).pixels@.len() == 0,
            final(self).disposed,
            final(self).transparency == old(self).transparency,
    {
        self.width = 0;
        self.height = 0;
        self.pixels = Vec::new();
        self.disposed = true;
    }

    /// The full pixel at a coordinate, 0 outside the bounds.
    pub fn get_pixel32(&self, x: i32, y: i32) -> (r: i32)
        requires
            self.wf(),
        ensures
            r == if self.in_bounds(x as int, y as int) {
                self.pixel_at(x as int, y as int) as i32
            } else {
                0i32
            },
    {
        if 0 <= x && (x as u32) < self.width && 0 <= y && (y as u32) < self.height {
            let n = self.pixels.len();
            proof {
                lemma_pixel_index_bound(self.width as int, self.height as int, x as int, y as int);
            }
            let i: usize = (y as usize) * (self.width as usize) + (x as usize);
            self.pixels[i] as i32
        } else {
            0
        }
    }

    /// The color bytes of a pixel, without its alpha; 0 outside the bounds.
    pub fn get_pixel(&self, x: i32, y: i32) -> (r: i32)
        requires
            self.wf(),
        ensures
            r == if self.in_bounds(x as int, y as int) {
                (self.pixel_at(x as int, y as int) & 0x00FF_FFFF) as i32
            } else {
                0i32
            },
    {
        let p = self.get_pixel32(x, y);
        if 0 <= x && (x as u32) < self.width && 0 <= y && (y as u32) < self.height {
            proof {
                let px = self.pixel_at(x as int, y as int);
                assert((px as i32) as u32 == px) by (bit_vector);
                assert((px & 0x00FF_FFFF) as i32 as u32 == (px & 0x00FF_FFFF)) by (bit_vector);
                assert(px & 0x00FF_FFFF <= 0x00FF_FFFF) by (bit_vector);
            }
            ((p as u32) & 0x00FF_FFFF) as i32
        } else {
            0
        }
    }

    /// Store a full pixel at a coordinate; an opaque bitmap forces alpha 0xFF.
    /// Out-of-bounds writes change nothing.
    pub fn set_pixel32(&mut self, x: i32, y: i32, color: u32)
        requires
            old(self).wf(),
        ensures
            final(self).wf(),
            *final(self) == (BitmapData { pixels: final(self).pixels, ..*old(self) }),
            old(self).in_bounds(x as int, y as int) ==> final(self).pixels@ == old(
                self,
            ).pixels@.update(
                old(self).idx(x as int, y as int),
                stored_pixel(old(self).transparency, color),
            ),
            !old(self).in_bounds(x as int, y as int) ==> final(self).pixels@ == old(self).pixels@,
    {
        if 0 <= x && (x as u32) < self.width && 0 <= y && (y as u32) < self.height {
            let n = self.pixels.len();
            proof {
                lemma_pixel_index_bound(self.width as int, self.height as int, x as int, y as int);
            }
            let i: usize = (y as usize) * (self.width as usize) + (x as usize);
            let v: u32 = if self.transparency {
                color
            } else {
                color | 0xFF00_0000
            };
            self.pixels.set(i, v);
        }
    }

    /// Store the color bytes of a pixel, keeping the alpha byte that is
    /// already there. Out-of-bounds writes change nothing.
    pub fn set_pixel(&mut self, x: u32, y: u32, color: u32)
        requires
            old(self).wf(),
        ensures
            final(self).wf(),
            *final(self) == (BitmapData { pixels: final(self).pixels, ..*old(self) }),
            old(self).in_bounds(x as int, y as int) ==> final(self).pixels@ == old(
                self,
            ).pixels@.update(
                old(self).idx(x as int, y as int),
                (old(self).pixel_at(x as int, y as int) & 0xFF00_0000) | (color & 0x00FF_FFFF),
            ),
            !old(self).in_bounds(x as int, y as int) ==> final(self).pixels@ == old(self).pixels@,
    {
        if x < self.width && y < self.height {
            let n = self.pixels.len();
            proof {
                lemma_pixel_index_bound(self.width as int, self.height as int, x as int, y as int);
            }
            let i: usize = (y as usize) * (self.width as usize) + (x as usize);
            let old_pixel = self.pixels[i];
            self.pixels.set(i, (old_pixel & 0xFF00_0000) | (color & 0x00FF_FFFF));
        }
    }
}

/// Whether a coordinate lies in the rectangle at `(rx, ry)` of size
/// `rw` by `rh`.
pub open spec fn in_rect(x: int, y: int, rx: int, ry: int, rw: int, rh: int) -> bool {
    rx <= x < rx + rw && ry <= y < ry + rh
}

impl BitmapData {
    /// Fill a rectangle with a color, stored per the transparency flag; the
    /// parts of the rectangle outside the bounds are ignored, and every pixel
    /// outside the rectangle keeps its value.
    #[verifier::loop_isolation(false)]
    pub fn fill_rect(&mut self, x: u32, y: u32, width: u32, height: u32, color: u32)
        requires
            old(self).wf(),
        ensures
            final(self).wf(),
            *final(self) == (BitmapData { pixels: final(self).pixels, ..*old(self) }),
            final(self).pixels@.len() == old(self).pixels@.len(),
            forall|px: int, py: int|
                old(self).in_bounds(px, py) ==> final(self).pixel_at(px, py) == (if in_rect(
                    px,
                    py,
                    x as int,
                    y as int,
                    width as int,
                    height as int,
                ) {
                    stored_pixel(old(self).transparency, color)
                } else {
                    old(self).pixel_at(px, py)
                }),
    {
        let ghost orig = *self;
        let fill: u32 = if self.transparency {
            color
        } else {
            color | 0xFF00_0000
        };
        let mut fresh: Vec<u32> = Vec::new();
        let mut yy: u32 = 0;
        while yy < self.height
            invariant
                fill == stored_pixel(orig.transparency, color),
                fresh@.len() == yy as int * self.width as int,
                yy <= self.height,
                forall|px: int, py: int|
                    0 <= px < self.width as int && 0 <= py < yy as int ==> fresh@[orig.idx(px, py)]
                        == (if in_rect(px, py, x as int, y as int, width as int, height as int) {
                        stored_pixel(orig.transparency, color)
                    } else {
                        orig.pixel_at(px, py)
                    }),
            decreases self.height as int - yy as int,
        {
            let mut xx: u32 = 0;
            while xx < self.width
                invariant
                    fill == stored_pixel(orig.transparency, color),
                    yy < self.height,
                    xx <= self.width,
                    fresh@.len() == yy as int * self.width as int + xx as int,
                    forall|px: int, py: int|
                        0 <= px < self.width as int && 0 <= py < yy as int ==> fresh@[orig.idx(
                            px,
                            py,
                        )] == (if in_rect(px, py, x as int, y as int, width as int, height as int) {
                            stored_pixel(orig.transparency, color)
                        } else {
                            orig.pixel_at(px, py)
                        }),
                    forall|px: int|
                        0 <= px < xx as int ==> fresh@[orig.idx(px, yy as int)] == (if in_rect(
                            px,
                            yy as int,
                            x as int,
                            y as int,
                            width as int,
                            height as int,
                        ) {
                            stored_pixel(orig.transparency, color)
                        } else {
                            orig.pixel_at(px, yy as int)
                        }),
                decreases self.width as int - xx as int,
            {
                proof {
                    lemma_pixel_index_bound(
                        self.width as int,
                        self.height as int,
                        xx as int,
                        yy as int,
                    );
                }
                let inside = x <= xx && (xx as u64) < (x as u64) + (width as u64) && y <= yy && (
                yy as u64) < (y as u64) + (height as u64);
                let v: u32 = if inside {
                    fill
                } else {
                    let n = self.pixels.len();
                    self.pixels[(yy as usize) * (self.width as usize) + (xx as usize)]
                };
                fresh.push(v);
                proof {
                    assert forall|px: int, py: int|
                        0 <= px < self.width as int && 0 <= py < yy as int implies orig.idx(px, py)
                        < fresh@.len() - 1 by {
                        lemma_idx_row_bound(orig.width as int, px, py, yy as int);
                    }
                    assert forall|px: int| 0 <= px < xx as int implies orig.idx(px, yy as int)
                        < fresh@.len() - 1 by {}
                }
                xx = xx + 1;
            }
            proof {
                assert((yy as int + 1) * (self.width as int) == yy as int * self.width as int
                    + self.width as int) by (nonlinear_arith);
                assert forall|px: int, py: int|
                    0 <= px < self.width as int && 0 <= py < yy as int + 1 implies fresh@[orig.idx(
                    px,
                    py,
                )] == (if in_rect(px, py, x as int, y as int, width as int, height as int) {
                    stored_pixel(orig.transparency, color)
                } else {
                    orig.pixel_at(px, py)
                }) by {}
            }
            yy = yy + 1;
        }
        proof {
            assert(orig.width as int * orig.height as int == orig.height as int
                * orig.width as int) by (nonlinear_arith);
            assert forall|px: int, py: int| orig.in_bounds(px, py) implies orig.idx(px, py)
                < fresh@.len() by {
                lemma_pixel_index_bound(orig.width as int, orig.height as int, px, py);
            }
        }
        self.pixels = fresh;
    }

    /// Shift the whole image by `(dx, dy)`: a pixel whose source lies inside
    /// the bounds takes the source's value, every other pixel keeps its own.
    #[verifier::loop_isolation(false)]
    pub fn scroll(&mut self, dx: i32, dy: i32)
        requires
            old(self).wf(),
            old(self).width < 0x8000_0000,
            old(self).height < 0x8000_0000,
        ensures
            final(self).wf(),
            *final(self) == (BitmapData { pixels: final(self).pixels, ..*old(self) }),
            final(self).pixels@.len() == old(self).pixels@.len(),
            forall|px: int, py: int|
                old(self).in_bounds(px, py) ==> final(self).pixel_at(px, py) == (if old(
                    self,
                ).in_bounds(px - dx as int, py - dy as int) {
                    old(self).pixel_at(px - dx as int, py - dy as int)
                } else {
                    old(self).pixel_at(px, py)
                }),
    {
        let ghost orig = *self;
        let mut fresh: Vec<u32> = Vec::new();
        let mut yy: u32 = 0;
        while yy < self.height
            invariant
                fresh@.len() == yy as int * self.width as int,
                yy <= self.height,
                forall|px: int, py: int|
                    0 <= px < self.width as int && 0 <= py < yy as int ==> fresh@[orig.idx(px, py)]
                        == (if orig.in_bounds(px - dx as int, py - dy as int) {
                        orig.pixel_at(px - dx as int, py - dy as int)
                    } else {
                        orig.pixel_at(px, py)
                    }),
            decreases self.height as int - yy as int,
        {
            let mut xx: u32 = 0;
            while xx < self.width
                invariant
                    yy < self.height,
                    xx <= self.width,
                    fresh@.len() == yy as int * self.width as int + xx as int,
                    forall|px: int, py: int|
                        0 <= px < self.width as int && 0 <= py < yy as int ==> fresh@[orig.idx(
                            px,
                            py,
                        )] == (if orig.in_bounds(px - dx as int, py - dy as int) {
                            orig.pixel_at(px - dx as int, py - dy as int)
                        } else {
                            orig.pixel_at(px, py)
                        }),
                    forall|px: int|
                        0 <= px < xx as int ==> fresh@[orig.idx(px, yy as int)] == (if orig.in_bounds(
                            px - dx as int,
                            yy as int - dy as int,
                        ) {
                            orig.pixel_at(px - dx as int, yy as int - dy as int)
                        } else {
                            orig.pixel_at(px, yy as int)
                        }),
                decreases self.width as int - xx as int,
            {
                proof {
                    lemma_pixel_index_bound(
                        self.width as int,
                        self.height as int,
                        xx as int,
                        yy as int,
                    );
                }
                let sx: i64 = (xx as i64) - (dx as i64);
                let sy: i64 = (yy as i64) - (dy as i64);
                let v: u32 = if 0 <= sx && sx < self.width as i64 && 0 <= sy && sy
                    < self.height as i64 {
                    let n = self.pixels.len();
                    proof {
                        lemma_pixel_index_bound(
                            self.width as int,
                            self.height as int,
                            sx as int,
                            sy as int,
                        );
                    }
                    self.pixels[(sy as usize) * (self.width as usize) + (sx as usize)]
                } else {
                    let n = self.pixels.len();
                    self.pixels[(yy as usize) * (self.width as usize) + (xx as usize)]
                };
                fresh.push(v);
                proof {
                    assert forall|px: int, py: int|
                        0 <= px < self.width as int && 0 <= py < yy as int implies orig.idx(px, py)
                        < fresh@.len() - 1 by {
                        lemma_idx_row_bound(orig.width as int, px, py, yy as int);
                    }
                    assert forall|px: int| 0 <= px < xx as int implies orig.idx(px, yy as int)
                        < fresh@.len() - 1 by {}
                }
                xx = xx + 1;
            }
            proof {
                assert((yy as int + 1) * (self.width as int) == yy as int * self.width as int
                    + self.width as int) by (nonlinear_arith);
                assert forall|px: int, py: int|
                    0 <= px < self.width as int && 0 <= py < yy as int + 1 implies fresh@[orig.idx(
                    px,
                    py,
                )] == (if orig.in_bounds(px - dx as int, py - dy as int) {
                    orig.pixel_at(px - dx as int, py - dy as int)
                } else {
                    orig.pixel_at(px, py)
                }) by {}
            }
            yy = yy + 1;
        }
        proof {
            assert(orig.width as int * orig.height as int == orig.height as int
                * orig.width as int) by (nonlinear_arith);
            assert forall|px: int, py: int| orig.in_bounds(px, py) implies orig.idx(px, py)
                < fresh@.len() by {
                lemma_pixel_index_bound(orig.width as int, orig.height as int, px, py);
            }
        }
        self.pixels = fresh;
    }

    /// Fill every pixel with generator-driven noise: pixel `i` is drawn from
    /// the `i`-th state of the generator seeded with `random_seed`; each
    /// selected channel lands in `low ..= high`.
    #[verifier::loop_isolation(false)]
    pub fn noise(&mut self, random_seed: i32, low: u8, high: u8, channel_options: u8, gray_scale: bool)
        requires
            old(self).wf(),
            low <= high,
        ensures
            final(self).wf(),
            *final(self) == (BitmapData { pixels: final(self).pixels, ..*old(self) }),
            final(self).pixels@.len() == old(self).pixels@.len(),
            forall|i: int|
                0 <= i < final(self).pixels@.len() ==> final(self).pixels@[i] == noise_pixel(
                    noise_state(random_seed, i),
                    low,
                    high,
                    channel_options,
                    gray_scale,
                ),
    {
        let n = self.pixels.len();
        let mut state: u32 = lcg_step(random_seed as u32);
        let mut i: usize = 0;
        while i < n
            invariant
                n == self.pixels@.len(),
                i <= n,
                state == noise_state(random_seed, i as int),
                self.wf(),
                *self == (BitmapData { pixels: self.pixels, ..*old(self) }),
                self.pixels@.len() == old(self).pixels@.len(),
                forall|j: int|
                    0 <= j < i ==> self.pixels@[j] == noise_pixel(
                        noise_state(random_seed, j),
                        low,
                        high,
                        channel_options,
                        gray_scale,
                    ),
            decreases n - i,
        {
            let span: u32 = (high - low) as u32 + 1;
            proof {
                assert(span == (high - low + 1) as u32);
            }
            let r: u32 = (low as u32) + (((state >> 0) & 0xFF) % span);
            let g: u32 = (low as u32) + (((state >> 8) & 0xFF) % span);
            let b: u32 = (low as u32) + (((state >> 16) & 0xFF) % span);
            let al: u32 = if channel_options & 8 == 8 {
                (low as u32) + (((state >> 24) & 0xFF) % span)
            } else {
                0xFF
            };
            let v: u32 = if gray_scale {
                (al << 24) | (r << 16) | (r << 8) | r
            } else {
                (al << 24) | ((if channel_options & 1 == 1 {
                    r
                } else {
                    0
                }) << 16) | ((if channel_options & 2 == 2 {
                    g
                } else {
                    0
                }) << 8) | (if channel_options & 4 == 4 {
                    b
                } else {
                    0
                })
            };
            self.pixels.set(i, v);
            state = lcg_step(state);
            i = i + 1;
        }
    }

    /// Compare two same-sized bitmaps pixel by pixel: `None` when every pixel
    /// is equal, otherwise a bitmap of the pixel-wise differences.
    #[verifier::loop_isolation(false)]
    pub fn compare(&self, other: &BitmapData) -> (r: Option<BitmapData>)
        requires
            self.wf(),
            other.wf(),
            self.width == other.width,
            self.height == other.height,
        ensures
            (r is None) <==> self.pixels@ == other.pixels@,
            r matches Some(d) ==> {
                &&& d.wf()
                &&& d.width == self.width
                &&& d.height == self.height
                &&& d.pixels@.len() == self.pixels@.len()
                &&& (forall|i: int|
                    0 <= i < d.pixels@.len() ==> d.pixels@[i] == diff_pixel(
                        self.pixels@[i],
                        other.pixels@[i],
                    ))
            },
    {
        let n = self.pixels.len();
        let mut diff: Vec<u32> = Vec::new();
        let mut any = false;
        let mut i: usize = 0;
        while i < n
            invariant
                n == self.pixels@.len(),
                self.pixels@.len() == other.pixels@.len(),
                i <= n,
                diff@.len() == i,
                any <==> exists|j: int| 0 <= j < i && self.pixels@[j] != other.pixels@[j],
                forall|j: int|
                    0 <= j < i ==> diff@[j] == diff_pixel(self.pixels@[j], other.pixels@[j]),
            decreases n - i,
        {
            let p = self.pixels[i];
            let q = other.pixels[i];
            let v: u32 = if p == q {
                0
            } else if p & 0x00FF_FFFF != q & 0x00FF_FFFF {
                let ghost pp = p;
                let ghost qq = q;
                let c: u32 = ((p & 0x00FF_FFFF).wrapping_sub(q & 0x00FF_FFFF)) & 0x00FF_FFFF;
                proof {
                    assert(c == ((((pp & 0x00FF_FFFF) as int - (qq & 0x00FF_FFFF) as int)
                        % 0x0100_0000) as u32)) by (bit_vector)
                        requires
                            c == ((pp & 0x00FF_FFFF) as u32).wrapping_sub(
                                (qq & 0x00FF_FFFF) as u32,
                            ) & 0x00FF_FFFF,
                    ;
                }
                c | 0xFF00_0000
            } else {
                let a: u32 = ((p >> 24).wrapping_sub(q >> 24)) & 0xFF;
                let ghost pp = p;
                let ghost qq = q;
                proof {
                    assert(a == ((((pp >> 24) as int - (qq >> 24) as int) % 0x100) as u32))
                        by (bit_vector)
                        requires
                            a == ((pp >> 24) as u32).wrapping_sub((qq >> 24) as u32) & 0xFF,
                    ;
                }
                (a << 24) | 0x00FF_FFFF
            };
            if p != q {
                any = true;
            }
            diff.push(v);
            i = i + 1;
        }
        if any {
            Some(
                BitmapData {
                    width: self.width,
                    height: self.height,
                    transparency: self.transparency,
                    pixels: diff,
                    disposed: false,
                },
            )
        } else {
            proof {
                assert(self.pixels@ =~= other.pixels@);
            }
            None
        }
    }

    /// Flood-fill starting at a coordinate: pixels of the start pixel's color
    /// reachable through the worklist take the fill color; every pixel either
    /// keeps its value or — having held the start pixel's color — takes the
    /// fill color. Filling with the color already there changes nothing.
    #[verifier::loop_isolation(false)]
    pub fn flood_fill(&mut self, x: u32, y: u32, color: u32)
        requires
            old(self).wf(),
        ensures
            final(self).wf(),
            *final(self) == (BitmapData { pixels: final(self).pixels, ..*old(self) }),
            final(self).pixels@.len() == old(self).pixels@.len(),
            forall|i: int|
                0 <= i < final(self).pixels@.len() ==> final(self).pixels@[i] == old(
                    self,
                ).pixels@[i] || (old(self).pixels@[i] == old(self).pixel_at(x as int, y as int)
                    && final(self).pixels@[i] == color),
            old(self).in_bounds(x as int, y as int) && old(self).pixel_at(x as int, y as int)
                != color ==> final(self).pixel_at(x as int, y as int) == color,
    {
        if !(x < self.width && y < self.height) {
            return ;
        }
        let target = {
            let n = self.pixels.len();
            proof {
                lemma_pixel_index_bound(self.width as int, self.height as int, x as int, y as int);
            }
            self.pixels[(y as usize) * (self.width as usize) + (x as usize)]
        };
        if target == color {
            return ;
        }
        let ghost orig = *self;
        let mut stack: Vec<(u32, u32)> = Vec::new();
        stack.push((x, y));
        proof {
            assert(stack@[0] == (x, y));
        }
        while stack.len() > 0
            invariant
                target != color,
                self.wf(),
                *self == (BitmapData { pixels: self.pixels, ..orig }),
                self.pixels@.len() == orig.pixels@.len(),
                forall|k: int|
                    0 <= k < stack@.len() ==> (#[trigger] stack@[k]).0 < self.width
                        && stack@[k].1 < self.height,
                forall|i: int|
                    0 <= i < self.pixels@.len() ==> self.pixels@[i] == orig.pixels@[i] || (
                    orig.pixels@[i] == target && self.pixels@[i] == color),
                self.pixel_at(x as int, y as int) == color || (exists|k: int|
                    0 <= k < stack@.len() && stack@[k] == (x, y)),
                orig.pixel_at(x as int, y as int) == target,
            decreases count_eq(self.pixels@, target), stack@.len(),
        {
            let (cx, cy) = stack[stack.len() - 1];
            let ghost pre = *self;
            let ghost prestack = stack@;
            stack.pop();
            let n = self.pixels.len();
            proof {
                lemma_pixel_index_bound(
                    self.width as int,
                    self.height as int,
                    cx as int,
                    cy as int,
                );
            }
            let i: usize = (cy as usize) * (self.width as usize) + (cx as usize);
            if self.pixels[i] == target {
                self.pixels.set(i, color);
                proof {
                    lemma_count_eq_update(pre.pixels@, i as int, color, target);
                }
                if cx > 0 {
                    stack.push((cx - 1, cy));
                }
                if cx + 1 < self.width {
                    stack.push((cx + 1, cy));
                }
                if cy > 0 {
                    stack.push((cx, cy - 1));
                }
                if cy + 1 < self.height {
                    stack.push((cx, cy + 1));
                }
            }
            proof {
                if cx == x && cy == y {
                    assert(self.pixel_at(x as int, y as int) == color);
                } else {
                    lemma_idx_injective(
                        orig.width as int,
                        orig.height as int,
                        x as int,
                        y as int,
                        cx as int,
                        cy as int,
                    );
                    if pre.pixel_at(x as int, y as int) == color {
                        assert(self.pixel_at(x as int, y as int) == color);
                    } else {
                        let k = choose|k: int|
                            0 <= k < prestack.len() && prestack[k] == (x, y);
                        assert(prestack[prestack.len() - 1] == (cx, cy));
                        assert(k != prestack.len() - 1);
                        assert(stack@[k] == (x, y));
                    }
                }
            }
        }
        proof {
            lemma_pixel_index_bound(orig.width as int, orig.height as int, x as int, y as int);
        }
    }
}

/// One exec step of the generator.
fn lcg_step(s: u32) -> (r: u32)
    ensures
        r == lcg(s),
{
    let r = ((s as u64) * 1664525 + 1013904223) % 0x1_0000_0000;
    r as u32
}

/// Distinct in-bounds coordinates have distinct buffer indices.
pub proof fn lemma_idx_injective(width: int, height: int, x1: int, y1: int, x2: int, y2: int)
    requires
        0 <= x1 < width,
        0 <= y1 < height,
        0 <= x2 < width,
        0 <= y2 < height,
        !(x1 == x2 && y1 == y2),
    ensures
        y1 * width + x1 != y2 * width + x2,
{
    if y1 == y2 {
    } else {
        assert(y1 * width + x1 != y2 * width + x2) by (nonlinear_arith)
            requires
                0 <= x1 < width,
                0 <= x2 < width,
                y1 != y2,
                y1 >= 0,
                y2 >= 0,
        ;
    }
}

/// A full row below `y` ends before the pixel at the start of row `y`.
pub proof fn lemma_idx_row_bound(width: int, x: int, y: int, yy: int)
    requires
        0 <= x < width,
        0 <= y < yy,
    ensures
        y * width + x < yy * width,
{
    assert(y * width + x < (y + 1) * width) by (nonlinear_arith)
        requires
            0 <= x < width,
    ;
    assert((y + 1) * width <= yy * width) by (nonlinear_arith)
        requires
            y + 1 <= yy,
            width >= 0,
    ;
}

/// A coordinate inside a `width` by `height` grid indexes inside the buffer.
pub proof fn lemma_pixel_index_bound(width: int, height: int, x: int, y: int)
    requires
        0 <= x < width,
        0 <= y < height,
    ensures
        0 <= y * width + x < width * height,
{
    assert(y * width + x < (y + 1) * width) by (nonlinear_arith)
        requires
            0 <= x < width,
    ;
    assert((y + 1) * width <= height * width) by (nonlinear_arith)
        requires
            y + 1 <= height,
            width >= 0,
    ;
    assert(height * width == width * height) by (nonlinear_arith);
    assert(y * width + x >= 0) by (nonlinear_arith)
        requires
            y >= 0,
            width >= 0,
            x >= 0,
    ;
}

} // verus!
