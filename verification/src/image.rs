//! The in-memory raster model and the pure-compute transforms.
//!
//! Rasters are 8-bit, tightly packed, row-major. The alpha variants exist
//! for one producer — arbitrary rotation, whose out-of-frame corners are
//! transparent — and are consumed by the encoders (PNG and WebP keep alpha;
//! opaque formats composite over white).

use vstd::prelude::*;
use vstd::arithmetic::div_mod::{lemma_fundamental_div_mod, lemma_fundamental_div_mod_converse};

verus! {

/// An owned 8-bit raster, tightly packed, row-major.
#[derive(Debug, Clone, PartialEq, Eq)]
#[non_exhaustive]
pub enum Raster {
    /// Single channel, 1 byte per pixel.
    Gray8 {
        /// Width in pixels.
        width: u32,
        /// Height in pixels.
        height: u32,
        /// Row-major samples, tightly packed.
        data: Vec<u8>,
    },
    /// Three channels, RGB order, 3 bytes per pixel.
    Rgb8 {
        /// Width in pixels.
        width: u32,
        /// Height in pixels.
        height: u32,
        /// Row-major samples, tightly packed.
        data: Vec<u8>,
    },
    /// Gray + alpha, 2 bytes per pixel.
    GrayA8 {
        /// Width in pixels.
        width: u32,
        /// Height in pixels.
        height: u32,
        /// Row-major samples, tightly packed.
        data: Vec<u8>,
    },
    /// RGB + alpha, 4 bytes per pixel.
    Rgba8 {
        /// Width in pixels.
        width: u32,
        /// Height in pixels.
        height: u32,
        /// Row-major samples, tightly packed.
        data: Vec<u8>,
    },
}

/// Pixel-geometry or buffer-consistency failure inside the pipeline —
/// always an internal bug or a decoder contract violation, never a client
/// error.
#[derive(Debug, Clone, PartialEq, Eq)]
#[non_exhaustive]
pub struct RasterError(pub String);

impl RasterError {
    /// The message: `raster error: <detail>`.
    pub fn to_string(&self) -> (s: String)
        ensures
            s@ == "raster error: "@ + self.0@,
    {
        let mut s = String::new();
        crate::grammar::push_str(&mut s, "raster error: ");
        crate::grammar::push_str(&mut s, self.0.as_str());
        s
    }
}

/// A source rectangle for [`Raster::blit`].
#[derive(Debug, Clone, Copy, PartialEq, Eq, Structural)]
#[non_exhaustive]
pub struct CopyRect {
    /// Left edge in the source raster.
    pub src_x: u32,
    /// Top edge in the source raster.
    pub src_y: u32,
    /// Copied width in pixels.
    pub width: u32,
    /// Copied height in pixels.
    pub height: u32,
}

impl CopyRect {
    /// A source rectangle.
    pub fn new(src_x: u32, src_y: u32, width: u32, height: u32) -> (r: CopyRect)
        ensures
            r == (CopyRect { src_x, src_y, width, height }),
    {
        CopyRect { src_x, src_y, width, height }
    }
}

/// The weights of BT.601 luma as binary64 numbers — the doubles nearest
/// 0.299, 0.587 and 0.114 — in units of 2^-56, where each is a whole
/// number.
pub const LUMA_RED: u128 = 21545220617340452;

/// See [`LUMA_RED`].
pub const LUMA_GREEN: u128 = 42297807700263696;

/// See [`LUMA_RED`].
pub const LUMA_BLUE: u128 = 8214565720323785;

/// The spacing of the binary64 numbers around `n` units of 2^-56, found
/// by doubling `q`: a double has 53 significant bits, so near `n` they lie
/// `q` apart for the least power of two `q` with `n < q × 2^53`.
pub open spec fn double_spacing(n: nat, q: nat) -> nat
    decreases n - q,
{
    if q == 0 || n < q * 0x20_0000_0000_0000 {
        q
    } else {
        double_spacing(n, 2 * q)
    }
}

/// `n` units of 2^-56 rounded to the nearest binary64 number, ties to the
/// one with an even last bit (the rounding of every binary64 operation).
pub open spec fn round_double(n: nat) -> nat {
    let q = double_spacing(n, 1);
    let lo = n / q * q;
    let rem = n % q;
    if 2 * rem < q {
        lo
    } else if 2 * rem > q {
        lo + q
    } else if (n / q) % 2 == 0 {
        lo
    } else {
        lo + q
    }
}

/// BT.601 luma of one RGB pixel as binary64 arithmetic computes it:
/// `0.114 B + (0.587 G + 0.299 R)`, the product `0.299 R` rounded, each
/// sum a fused multiply-add rounded once, then rounded to the nearest
/// integer (halves away from zero) and held to 255. Every step is exact
/// integer arithmetic in units of 2^-56.
pub open spec fn luma(r: u8, g: u8, b: u8) -> u8 {
    let t1 = round_double((LUMA_RED as nat) * (r as nat));
    let t2 = round_double((LUMA_GREEN as nat) * (g as nat) + t1);
    let t3 = round_double((LUMA_BLUE as nat) * (b as nat) + t2);
    let v = (t3 + 0x80_0000_0000_0000) / 0x100_0000_0000_0000;
    if v > 255 {
        255
    } else {
        v as u8
    }
}

/// One channel of source-over-white compositing: `value` at opacity
/// `alpha` over white, rounded half up.
pub open spec fn composite(value: u8, alpha: u8) -> u8 {
    ((value * alpha + 255 * (255 - alpha) + 127) / 255) as u8
}

/// The 50% threshold to pure black or white.
pub open spec fn threshold(v: u8) -> u8 {
    if v >= 128 {
        255
    } else {
        0
    }
}

/// The exec counterpart of [`round_double`], for values below 2^66 units.
fn round_double_of(n: u128) -> (r: u128)
    requires
        n < 0x4_0000_0000_0000_0000,
    ensures
        r == round_double(n as nat),
        r <= n + 0x4000,
{
    let mut q: u128 = 1;
    while n >= q * 0x20_0000_0000_0000
        invariant
            1 <= q <= 0x4000,
            n < 0x4_0000_0000_0000_0000,
            double_spacing(n as nat, q as nat) == double_spacing(n as nat, 1),
        decreases n - q,
    {
        q = q * 2;
    }
    let k = n / q;
    assert(k * q <= n) by (nonlinear_arith)
        requires
            k == n / q,
            q >= 1,
    ;
    let lo = k * q;
    let rem = n % q;
    assert(lo + rem == n) by (nonlinear_arith)
        requires
            k == n / q,
            rem == n % q,
            lo == k * q,
            q >= 1,
    ;
    if 2 * rem < q {
        lo
    } else if 2 * rem > q {
        lo + q
    } else if k % 2 == 0 {
        lo
    } else {
        lo + q
    }
}

/// The exec counterpart of [`luma`].
fn luma_of(red: u8, green: u8, blue: u8) -> (l: u8)
    ensures
        l == luma(red, green, blue),
{
    let t1 = round_double_of(LUMA_RED * red as u128);
    let t2 = round_double_of(LUMA_GREEN * green as u128 + t1);
    let t3 = round_double_of(LUMA_BLUE * blue as u128 + t2);
    let v = (t3 + 0x80_0000_0000_0000) / 0x100_0000_0000_0000;
    if v > 255 {
        255
    } else {
        v as u8
    }
}

/// The exec counterpart of [`composite`].
fn composite_channel(value: u8, alpha: u8) -> (c: u8)
    ensures
        c == composite(value, alpha),
{
    assert(value as u32 * alpha as u32 <= 255 * 255) by (nonlinear_arith)
        requires
            value <= 255,
            alpha <= 255,
    ;
    ((value as u32 * alpha as u32 + 255 * (255 - alpha as u32) + 127) / 255) as u8
}

impl Raster {
    /// Width in pixels.
    pub open spec fn spec_width(&self) -> nat {
        match self {
            Raster::Gray8 { width, .. } => *width as nat,
            Raster::Rgb8 { width, .. } => *width as nat,
            Raster::GrayA8 { width, .. } => *width as nat,
            Raster::Rgba8 { width, .. } => *width as nat,
        }
    }

    /// Height in pixels.
    pub open spec fn spec_height(&self) -> nat {
        match self {
            Raster::Gray8 { height, .. } => *height as nat,
            Raster::Rgb8 { height, .. } => *height as nat,
            Raster::GrayA8 { height, .. } => *height as nat,
            Raster::Rgba8 { height, .. } => *height as nat,
        }
    }

    /// Samples per pixel: 1 gray, 2 gray+alpha, 3 RGB, 4 RGBA.
    pub open spec fn spec_channels(&self) -> nat {
        match self {
            Raster::Gray8 { .. } => 1,
            Raster::GrayA8 { .. } => 2,
            Raster::Rgb8 { .. } => 3,
            Raster::Rgba8 { .. } => 4,
        }
    }

    /// The sample buffer.
    pub open spec fn spec_data(&self) -> Seq<u8> {
        match self {
            Raster::Gray8 { data, .. } => data@,
            Raster::Rgb8 { data, .. } => data@,
            Raster::GrayA8 { data, .. } => data@,
            Raster::Rgba8 { data, .. } => data@,
        }
    }

    /// Whether the buffer holds exactly `width × height × channels` samples.
    pub open spec fn wf(&self) -> bool {
        self.spec_data().len() == self.spec_width() * self.spec_height() * self.spec_channels()
    }

    /// Sample `c` of pixel (`x`, `y`).
    pub open spec fn sample(&self, x: int, y: int, c: int) -> u8 {
        self.spec_data()[(y * self.spec_width() + x) * self.spec_channels() + c]
    }

    /// Width in pixels.
    pub fn width(&self) -> (w: u32)
        ensures
            w == self.spec_width(),
    {
        match self {
            Raster::Gray8 { width, .. } => *width,
            Raster::Rgb8 { width, .. } => *width,
            Raster::GrayA8 { width, .. } => *width,
            Raster::Rgba8 { width, .. } => *width,
        }
    }

    /// Height in pixels.
    pub fn height(&self) -> (h: u32)
        ensures
            h == self.spec_height(),
    {
        match self {
            Raster::Gray8 { height, .. } => *height,
            Raster::Rgb8 { height, .. } => *height,
            Raster::GrayA8 { height, .. } => *height,
            Raster::Rgba8 { height, .. } => *height,
        }
    }

    /// Samples per pixel (1, 2, 3 or 4).
    pub fn channels(&self) -> (c: u32)
        ensures
            c == self.spec_channels(),
    {
        match self {
            Raster::Gray8 { .. } => 1,
            Raster::GrayA8 { .. } => 2,
            Raster::Rgb8 { .. } => 3,
            Raster::Rgba8 { .. } => 4,
        }
    }

    /// The raw row-major sample buffer.
    pub fn data(&self) -> (d: &[u8])
        ensures
            d@ == self.spec_data(),
    {
        match self {
            Raster::Gray8 { data, .. } => data.as_slice(),
            Raster::Rgb8 { data, .. } => data.as_slice(),
            Raster::GrayA8 { data, .. } => data.as_slice(),
            Raster::Rgba8 { data, .. } => data.as_slice(),
        }
    }

    /// Whether the buffer holds exactly `width × height × channels` samples.
    pub fn is_wf(&self) -> (b: bool)
        ensures
            b == self.wf(),
    {
        let n = self.data().len() as u128;
        let w = self.width() as u128;
        let h = self.height() as u128;
        let c = self.channels() as u128;
        assert(w * h <= 0xFFFF_FFFFu128 * 0xFFFF_FFFFu128) by (nonlinear_arith)
            requires
                w <= 0xFFFF_FFFFu128,
                h <= 0xFFFF_FFFFu128,
        ;
        assert(w * h * c <= 0xFFFF_FFFFu128 * 0xFFFF_FFFFu128 * 4) by (nonlinear_arith)
            requires
                w * h <= 0xFFFF_FFFFu128 * 0xFFFF_FFFFu128,
                c <= 4,
        ;
        n == w * h * c
    }

    /// A copy of this raster.
    pub fn duplicate(&self) -> (r: Raster)
        ensures
            r.spec_channels() == self.spec_channels(),
            r.spec_width() == self.spec_width(),
            r.spec_height() == self.spec_height(),
            r.spec_data() == self.spec_data(),
    {
        match self {
            Raster::Gray8 { width, height, data } => {
                let d = data.clone();
                assert(d@ =~= data@);
                Raster::Gray8 { width: *width, height: *height, data: d }
            },
            Raster::Rgb8 { width, height, data } => {
                let d = data.clone();
                assert(d@ =~= data@);
                Raster::Rgb8 { width: *width, height: *height, data: d }
            },
            Raster::GrayA8 { width, height, data } => {
                let d = data.clone();
                assert(d@ =~= data@);
                Raster::GrayA8 { width: *width, height: *height, data: d }
            },
            Raster::Rgba8 { width, height, data } => {
                let d = data.clone();
                assert(d@ =~= data@);
                Raster::Rgba8 { width: *width, height: *height, data: d }
            },
        }
    }

    /// Allocates a zeroed raster with the same pixel layout.
    ///
    /// # Errors
    ///
    /// Fails when `width * height * channels` overflows `usize`.
    pub fn zeroed_like(&self, width: u32, height: u32) -> (r: Result<Raster, RasterError>)
        ensures
            match r {
                Ok(out) => {
                    &&& width * height * self.spec_channels() <= usize::MAX
                    &&& out.spec_channels() == self.spec_channels()
                    &&& out.spec_width() == width
                    &&& out.spec_height() == height
                    &&& out.spec_data() == Seq::new(
                        (width * height * self.spec_channels()) as nat,
                        |i: int| 0u8,
                    )
                    &&& out.wf()
                },
                Err(e) => width * height * self.spec_channels() > usize::MAX && e.0@
                    == "allocation size overflow"@,
            },
    {
        let c = self.channels() as usize;
        let n = match (width as usize).checked_mul(height as usize) {
            Some(n) => n.checked_mul(c),
            None => None,
        };
        let pixels = match n {
            Some(p) => p,
            None => {
                proof {
                    if (width as usize) * (height as usize) <= usize::MAX {
                        assert(width * height * self.spec_channels() > usize::MAX);
                    } else {
                        assert(width * height * self.spec_channels() >= width * height)
                            by (nonlinear_arith)
                            requires
                                self.spec_channels() >= 1,
                        ;
                    }
                }
                return Err(RasterError("allocation size overflow".to_string()));
            },
        };
        let data: Vec<u8> = vec![0u8; pixels];
        assert(data@ =~= Seq::new((width * height * self.spec_channels()) as nat, |i: int| 0u8));
        Ok(
            match self {
                Raster::Gray8 { .. } => Raster::Gray8 { width, height, data },
                Raster::Rgb8 { .. } => Raster::Rgb8 { width, height, data },
                Raster::GrayA8 { .. } => Raster::GrayA8 { width, height, data },
                Raster::Rgba8 { .. } => Raster::Rgba8 { width, height, data },
            },
        )
    }
}

/// `d` (a raster `dw` pixels wide) with the `w`×`h` rectangle of `s` (a
/// raster `sw` pixels wide) at (`sx`, `sy`) copied in at (`dx`, `dy`); every
/// other sample is kept.
pub open spec fn blit_data(
    d: Seq<u8>,
    s: Seq<u8>,
    dw: int,
    sw: int,
    bpp: int,
    sx: int,
    sy: int,
    w: int,
    h: int,
    dx: int,
    dy: int,
) -> Seq<u8> {
    Seq::new(
        d.len(),
        |k: int|
            {
                let rr = k / (dw * bpp) - dy;
                let cc = k % (dw * bpp) - dx * bpp;
                if 0 <= rr < h && 0 <= cc < w * bpp {
                    s[(sy + rr) * (sw * bpp) + sx * bpp + cc]
                } else {
                    d[k]
                }
            },
    )
}

/// [`blit_data`] after the rows before `r`, and the first `j` bytes of row
/// `r`, have been copied.
spec fn blit_progress(
    d: Seq<u8>,
    s: Seq<u8>,
    ds: int,
    ss: int,
    bpp: int,
    sx: int,
    sy: int,
    w: int,
    dx: int,
    dy: int,
    r: int,
    j: int,
) -> Seq<u8> {
    Seq::new(
        d.len(),
        |k: int|
            {
                let rr = k / ds - dy;
                let cc = k % ds - dx * bpp;
                if 0 <= rr && 0 <= cc < w * bpp && (rr < r || (rr == r && cc < j)) {
                    s[(sy + rr) * ss + sx * bpp + cc]
                } else {
                    d[k]
                }
            },
    )
}

/// Copies the rectangle row by row.
fn copy_rows(
    dst: &mut Vec<u8>,
    src: &[u8],
    dw: usize,
    dh: usize,
    sw: usize,
    sh: usize,
    bpp: usize,
    sx: usize,
    sy: usize,
    w: usize,
    h: usize,
    dx: usize,
    dy: usize,
)
    requires
        old(dst)@.len() == dw * dh * bpp,
        src@.len() == sw * sh * bpp,
        1 <= bpp <= 4,
        sx + w <= sw,
        sy + h <= sh,
        dx + w <= dw,
        dy + h <= dh,
    ensures
        final(dst)@ == blit_data(
            old(dst)@,
            src@,
            dw as int,
            sw as int,
            bpp as int,
            sx as int,
            sy as int,
            w as int,
            h as int,
            dx as int,
            dy as int,
        ),
{
    let ghost d0 = dst@;
    let ghost s0 = src@;
    let dlen = dst.len();
    let slen = src.len();
    if w == 0 || h == 0 {
        assert(w * bpp == 0 || h == 0) by (nonlinear_arith)
            requires
                w == 0 || h == 0,
        ;
        assert(dst@ =~= blit_data(d0, s0, dw as int, sw as int, bpp as int, sx as int, sy as int, w as int, h as int, dx as int, dy as int));
        return;
    }
    assert(dw * bpp <= dw * dh * bpp && sw * bpp <= sw * sh * bpp) by (nonlinear_arith)
        requires
            dh >= 1,
            sh >= 1,
            bpp >= 1,
    ;
    let ds = dw * bpp;
    let ss = sw * bpp;
    assert(w * bpp <= dw * bpp && w * bpp >= 1) by (nonlinear_arith)
        requires
            w <= dw,
            w >= 1,
            bpp >= 1,
    ;
    let rb = w * bpp;
    assert(dh * ds == dw * dh * bpp && sh * ss == sw * sh * bpp && ds > 0 && ss > 0
        && (dx + w) * bpp <= ds && (sx + w) * bpp <= ss && dx * bpp + rb == (dx + w) * bpp
        && sx * bpp + rb == (sx + w) * bpp) by (nonlinear_arith)
        requires
            ds == dw * bpp,
            ss == sw * bpp,
            rb == w * bpp,
            dx + w <= dw,
            sx + w <= sw,
            w >= 1,
            bpp >= 1,
    ;
    let dxb = dx * bpp;
    let sxb = sx * bpp;
    let mut r: usize = 0;
    assert(dst@ =~= blit_progress(d0, s0, ds as int, ss as int, bpp as int, sx as int, sy as int, w as int, dx as int, dy as int, 0, 0));
    while r < h
        invariant
            d0.len() == dst@.len() == dh * ds,
            s0 == src@,
            s0.len() == sh * ss,
            dh * ds <= usize::MAX,
            sh * ss <= usize::MAX,
            ds == dw * bpp,
            ss == sw * bpp,
            rb == w * bpp,
            dxb == dx * bpp,
            sxb == sx * bpp,
            ds > 0,
            ss > 0,
            rb > 0,
            dxb + rb <= ds,
            sxb + rb <= ss,
            sy + h <= sh,
            dy + h <= dh,
            r <= h,
            dst@ == blit_progress(d0, s0, ds as int, ss as int, bpp as int, sx as int, sy as int, w as int, dx as int, dy as int, r as int, 0),
        decreases h - r,
    {
        let mut j: usize = 0;
        proof {
            lemma_index_below((dy + r) as int, dxb as int, ds as int, dh as int);
            lemma_index_below((sy + r) as int, sxb as int, ss as int, sh as int);
        }
        let drow = (dy + r) * ds + dxb;
        let srow = (sy + r) * ss + sxb;
        while j < rb
            invariant
                d0.len() == dst@.len() == dh * ds,
                s0 == src@,
                s0.len() == sh * ss,
                dh * ds <= usize::MAX,
                sh * ss <= usize::MAX,
                rb == w * bpp,
                dxb == dx * bpp,
                sxb == sx * bpp,
                ds > 0,
                ss > 0,
                dxb + rb <= ds,
                sxb + rb <= ss,
                sy + h <= sh,
                dy + h <= dh,
                r < h,
                drow == (dy + r) * ds + dxb,
                srow == (sy + r) * ss + sxb,
                j <= rb,
                dst@ == blit_progress(d0, s0, ds as int, ss as int, bpp as int, sx as int, sy as int, w as int, dx as int, dy as int, r as int, j as int),
            decreases rb - j,
        {
            proof {
                lemma_index_below((dy + r) as int, (dxb + j) as int, ds as int, dh as int);
                lemma_index_below((sy + r) as int, (sxb + j) as int, ss as int, sh as int);
            }
            let di = drow + j;
            let si = srow + j;
            let v = src[si];
            let ghost before = dst@;
            dst.set(di, v);
            proof {
                lemma_fundamental_div_mod_converse(di as int, ds as int, (dy + r) as int, (dxb + j) as int);
                let next = blit_progress(d0, s0, ds as int, ss as int, bpp as int, sx as int, sy as int, w as int, dx as int, dy as int, r as int, j + 1);
                assert forall|k: int| 0 <= k < dst@.len() implies dst@[k] == next[k] by {
                    lemma_div_parts(k, ds as int);
                }
                assert(dst@ =~= next);
            }
            j += 1;
        }
        proof {
            let a = blit_progress(d0, s0, ds as int, ss as int, bpp as int, sx as int, sy as int, w as int, dx as int, dy as int, r as int, rb as int);
            let b = blit_progress(d0, s0, ds as int, ss as int, bpp as int, sx as int, sy as int, w as int, dx as int, dy as int, r + 1, 0);
            assert(a =~= b);
        }
        r += 1;
    }
    assert(dst@ =~= blit_data(d0, s0, dw as int, sw as int, bpp as int, sx as int, sy as int, w as int, h as int, dx as int, dy as int));
}

impl Raster {
    /// Whether `rect` of `src` and the same-sized rectangle at
    /// (`dst_x`, `dst_y`) both lie inside their rasters.
    pub open spec fn blit_fits(&self, src: &Raster, rect: CopyRect, dst_x: u32, dst_y: u32) -> bool {
        &&& rect.src_x + rect.width <= src.spec_width()
        &&& rect.src_y + rect.height <= src.spec_height()
        &&& dst_x + rect.width <= self.spec_width()
        &&& dst_y + rect.height <= self.spec_height()
    }

    /// Copies `rect` of `src` into this raster at (`dst_x`, `dst_y`).
    /// Layouts must match. The copy reads and writes whole rows, so both
    /// buffers must match their dimensions when it goes ahead.
    ///
    /// # Errors
    ///
    /// Fails when the pixel layouts differ, or when the rectangles fall
    /// outside either raster; the raster is then left as it was.
    pub fn blit(&mut self, src: &Raster, rect: CopyRect, dst_x: u32, dst_y: u32) -> (r: Result<
        (),
        RasterError,
    >)
        requires
            old(self).spec_channels() == src.spec_channels() && old(self).blit_fits(
                src,
                rect,
                dst_x,
                dst_y,
            ) ==> old(self).wf() && src.wf(),
        ensures
            final(self).spec_channels() == old(self).spec_channels(),
            final(self).spec_width() == old(self).spec_width(),
            final(self).spec_height() == old(self).spec_height(),
            r is Ok <==> old(self).spec_channels() == src.spec_channels() && old(self).blit_fits(
                src,
                rect,
                dst_x,
                dst_y,
            ),
            r is Ok ==> final(self).spec_data() == blit_data(
                old(self).spec_data(),
                src.spec_data(),
                old(self).spec_width() as int,
                src.spec_width() as int,
                src.spec_channels() as int,
                rect.src_x as int,
                rect.src_y as int,
                rect.width as int,
                rect.height as int,
                dst_x as int,
                dst_y as int,
            ),
            r is Err ==> *final(self) == *old(self),
            match r {
                Ok(_) => true,
                Err(e) => e.0@ == (if old(self).spec_channels() != src.spec_channels() {
                    "blit between different pixel layouts"@
                } else {
                    "blit rectangle out of bounds"@
                }),
            },
    {
        if self.channels() != src.channels() {
            return Err(RasterError("blit between different pixel layouts".to_string()));
        }
        let CopyRect { src_x, src_y, width, height } = rect;
        if src_x as u64 + width as u64 > src.width() as u64 || src_y as u64 + height as u64
            > src.height() as u64 || dst_x as u64 + width as u64 > self.width() as u64
            || dst_y as u64 + height as u64 > self.height() as u64 {
            return Err(RasterError("blit rectangle out of bounds".to_string()));
        }
        let bpp = self.channels() as usize;
        let dw = self.width() as usize;
        let dh = self.height() as usize;
        let sw = src.width() as usize;
        let sh = src.height() as usize;
        let s = src.data();
        match self {
            Raster::Gray8 { data, .. } => copy_rows(
                data,
                s,
                dw,
                dh,
                sw,
                sh,
                bpp,
                src_x as usize,
                src_y as usize,
                width as usize,
                height as usize,
                dst_x as usize,
                dst_y as usize,
            ),
            Raster::Rgb8 { data, .. } => copy_rows(
                data,
                s,
                dw,
                dh,
                sw,
                sh,
                bpp,
                src_x as usize,
                src_y as usize,
                width as usize,
                height as usize,
                dst_x as usize,
                dst_y as usize,
            ),
            Raster::GrayA8 { data, .. } => copy_rows(
                data,
                s,
                dw,
                dh,
                sw,
                sh,
                bpp,
                src_x as usize,
                src_y as usize,
                width as usize,
                height as usize,
                dst_x as usize,
                dst_y as usize,
            ),
            Raster::Rgba8 { data, .. } => copy_rows(
                data,
                s,
                dw,
                dh,
                sw,
                sh,
                bpp,
                src_x as usize,
                src_y as usize,
                width as usize,
                height as usize,
                dst_x as usize,
                dst_y as usize,
            ),
        }
        Ok(())
    }
}

/// Gray samples of RGB pixels: one luma per complete 3-byte pixel.
pub open spec fn gray_of_rgb(d: Seq<u8>) -> Seq<u8> {
    Seq::new(d.len() / 3, |i: int| luma(d[3 * i], d[3 * i + 1], d[3 * i + 2]))
}

/// Gray+alpha samples of RGBA pixels: luma then alpha per complete 4-byte
/// pixel.
pub open spec fn gray_alpha_of_rgba(d: Seq<u8>) -> Seq<u8> {
    Seq::new(
        2 * (d.len() / 4),
        |k: int|
            if k % 2 == 0 {
                luma(d[4 * (k / 2)], d[4 * (k / 2) + 1], d[4 * (k / 2) + 2])
            } else {
                d[4 * (k / 2) + 3]
            },
    )
}

/// Gray samples of gray+alpha pixels flattened over white.
pub open spec fn flat_of_gray_alpha(d: Seq<u8>) -> Seq<u8> {
    Seq::new(d.len() / 2, |i: int| composite(d[2 * i], d[2 * i + 1]))
}

/// RGB samples of RGBA pixels flattened over white.
pub open spec fn flat_of_rgba(d: Seq<u8>) -> Seq<u8> {
    Seq::new(3 * (d.len() / 4), |k: int| composite(d[4 * (k / 3) + k % 3], d[4 * (k / 3) + 3]))
}

/// Every complete 2-byte pixel's first sample thresholded; the second,
/// and any trailing byte, kept.
pub open spec fn bitonal_gray_alpha(d: Seq<u8>) -> Seq<u8> {
    Seq::new(
        d.len(),
        |k: int|
            if k % 2 == 0 && k + 1 < d.len() {
                threshold(d[k])
            } else {
                d[k]
            },
    )
}

/// The layout grayscale conversion produces: gray stays, RGB becomes
/// gray, RGBA becomes gray+alpha.
pub open spec fn gray_channels(c: nat) -> nat {
    if c == 3 {
        1
    } else if c == 4 {
        2
    } else {
        c
    }
}

/// The samples grayscale conversion produces from a layout's samples.
pub open spec fn gray_data(c: nat, d: Seq<u8>) -> Seq<u8> {
    if c == 3 {
        gray_of_rgb(d)
    } else if c == 4 {
        gray_alpha_of_rgba(d)
    } else {
        d
    }
}

/// The samples bitonal conversion produces from a layout's samples.
pub open spec fn bitonal_data(c: nat, d: Seq<u8>) -> Seq<u8> {
    let g = gray_data(c, d);
    if gray_channels(c) == 1 {
        g.map_values(|v: u8| threshold(v))
    } else {
        bitonal_gray_alpha(g)
    }
}

/// The layout flattening produces: alpha layouts lose their alpha.
pub open spec fn flat_channels(c: nat) -> nat {
    if c == 2 {
        1
    } else if c == 4 {
        3
    } else {
        c
    }
}

/// The samples flattening over white produces from a layout's samples.
pub open spec fn flat_data(c: nat, d: Seq<u8>) -> Seq<u8> {
    if c == 2 {
        flat_of_gray_alpha(d)
    } else if c == 4 {
        flat_of_rgba(d)
    } else {
        d
    }
}


/// A pixel index below `len / k` addresses `k` bytes inside the buffer.
proof fn lemma_chunk_in_bounds(len: int, k: int, i: int)
    requires
        k > 0,
        0 <= i < len / k,
        len >= 0,
    ensures
        k * i + k <= len,
{
    lemma_fundamental_div_mod(len, k);
    let q = len / k;
    assert(k * i + k <= k * q) by (nonlinear_arith)
        requires
            i + 1 <= q,
            k > 0,
    ;
}

/// One luma per complete 3-byte pixel.
fn rgb_to_gray(d: &Vec<u8>) -> (r: Vec<u8>)
    ensures
        r@ == gray_of_rgb(d@),
{
    let len = d.len();
    let n = len / 3;
    let mut out: Vec<u8> = Vec::with_capacity(n);
    let mut i: usize = 0;
    while i < n
        invariant
            n == d@.len() / 3,
            len == d@.len(),
            i <= n,
            out@ == gray_of_rgb(d@).take(i as int),
        decreases n - i,
    {
        proof {
            lemma_chunk_in_bounds(d@.len() as int, 3, i as int);
        }
        out.push(luma_of(d[3 * i], d[3 * i + 1], d[3 * i + 2]));
        assert(out@ =~= gray_of_rgb(d@).take(i + 1));
        i += 1;
    }
    assert(out@ =~= gray_of_rgb(d@));
    out
}

/// Luma then alpha per complete 4-byte pixel.
fn rgba_to_gray_alpha(d: &Vec<u8>) -> (r: Vec<u8>)
    ensures
        r@ == gray_alpha_of_rgba(d@),
{
    let len = d.len();
    let n = len / 4;
    let mut out: Vec<u8> = Vec::with_capacity(2 * n);
    let mut i: usize = 0;
    while i < n
        invariant
            n == d@.len() / 4,
            len == d@.len(),
            i <= n,
            out@ == gray_alpha_of_rgba(d@).take(2 * i),
        decreases n - i,
    {
        proof {
            lemma_chunk_in_bounds(d@.len() as int, 4, i as int);
        }
        out.push(luma_of(d[4 * i], d[4 * i + 1], d[4 * i + 2]));
        out.push(d[4 * i + 3]);
        proof {
            let g = gray_alpha_of_rgba(d@);
            assert((2 * i) % 2 == 0 && (2 * i) / 2 == i);
            assert((2 * i + 1) % 2 == 1 && (2 * i + 1) / 2 == i);
            assert(out@ =~= g.take(2 * i + 2));
        }
        i += 1;
    }
    assert(out@ =~= gray_alpha_of_rgba(d@));
    out
}

/// One composite per complete 2-byte pixel.
pub(crate) fn gray_alpha_to_flat(d: &Vec<u8>) -> (r: Vec<u8>)
    ensures
        r@ == flat_of_gray_alpha(d@),
{
    let len = d.len();
    let n = len / 2;
    let mut out: Vec<u8> = Vec::with_capacity(n);
    let mut i: usize = 0;
    while i < n
        invariant
            n == d@.len() / 2,
            len == d@.len(),
            i <= n,
            out@ == flat_of_gray_alpha(d@).take(i as int),
        decreases n - i,
    {
        proof {
            lemma_chunk_in_bounds(d@.len() as int, 2, i as int);
        }
        out.push(composite_channel(d[2 * i], d[2 * i + 1]));
        assert(out@ =~= flat_of_gray_alpha(d@).take(i + 1));
        i += 1;
    }
    assert(out@ =~= flat_of_gray_alpha(d@));
    out
}

/// Three composites per complete 4-byte pixel.
pub(crate) fn rgba_to_flat(d: &Vec<u8>) -> (r: Vec<u8>)
    ensures
        r@ == flat_of_rgba(d@),
{
    let len = d.len();
    let n = len / 4;
    let mut out: Vec<u8> = Vec::with_capacity(3 * n);
    let mut i: usize = 0;
    while i < n
        invariant
            n == d@.len() / 4,
            len == d@.len(),
            i <= n,
            out@ == flat_of_rgba(d@).take(3 * i),
        decreases n - i,
    {
        proof {
            lemma_chunk_in_bounds(d@.len() as int, 4, i as int);
        }
        let a = d[4 * i + 3];
        out.push(composite_channel(d[4 * i], a));
        out.push(composite_channel(d[4 * i + 1], a));
        out.push(composite_channel(d[4 * i + 2], a));
        proof {
            assert((3 * i) / 3 == i && (3 * i) % 3 == 0);
            assert((3 * i + 1) / 3 == i && (3 * i + 1) % 3 == 1);
            assert((3 * i + 2) / 3 == i && (3 * i + 2) % 3 == 2);
            assert(out@ =~= flat_of_rgba(d@).take(3 * i + 3));
        }
        i += 1;
    }
    assert(out@ =~= flat_of_rgba(d@));
    out
}

/// Thresholds every sample.
fn threshold_all(d: &mut Vec<u8>)
    ensures
        final(d)@ == old(d)@.map_values(|v: u8| threshold(v)),
{
    let n = d.len();
    let mut i: usize = 0;
    while i < n
        invariant
            n == d@.len() == old(d)@.len(),
            i <= n,
            forall|k: int| 0 <= k < i ==> d@[k] == threshold(old(d)@[k]),
            forall|k: int| i <= k < n ==> d@[k] == old(d)@[k],
        decreases n - i,
    {
        let v = d[i];
        d.set(i, if v >= 128 { 255 } else { 0 });
        i += 1;
    }
    assert(d@ =~= old(d)@.map_values(|v: u8| threshold(v)));
}

/// Thresholds the first sample of every complete 2-byte pixel.
fn threshold_pairs(d: &mut Vec<u8>)
    ensures
        final(d)@ == bitonal_gray_alpha(old(d)@),
{
    let n = d.len() / 2;
    let len = d.len();
    let mut i: usize = 0;
    while i < n
        invariant
            n == len / 2,
            len == d@.len() == old(d)@.len(),
            i <= n,
            forall|k: int|
                0 <= k < len ==> d@[k] == (if k % 2 == 0 && k < 2 * i {
                    threshold(old(d)@[k])
                } else {
                    old(d)@[k]
                }),
        decreases n - i,
    {
        proof {
            lemma_chunk_in_bounds(len as int, 2, i as int);
        }
        let v = d[2 * i];
        d.set(2 * i, if v >= 128 { 255 } else { 0 });
        i += 1;
    }
    assert forall|k: int| 0 <= k < len implies d@[k] == bitonal_gray_alpha(old(d)@)[k] by {
        if k % 2 == 0 && k + 1 < len {
            assert(k < 2 * n);
        }
        if k % 2 == 0 && k < 2 * n {
            assert(k + 1 < len);
        }
    }
    assert(d@ =~= bitonal_gray_alpha(old(d)@));
}

impl Raster {
    /// Converts to grayscale (BT.601 luma); a no-op for gray input. RGB
    /// becomes gray, RGBA becomes gray+alpha.
    pub fn into_gray(self) -> (r: Raster)
        ensures
            r.spec_width() == self.spec_width(),
            r.spec_height() == self.spec_height(),
            r.spec_channels() == gray_channels(self.spec_channels()),
            r.spec_data() == gray_data(self.spec_channels(), self.spec_data()),
    {
        match self {
            Raster::Rgb8 { width, height, data } => {
                let gray = rgb_to_gray(&data);
                Raster::Gray8 { width, height, data: gray }
            },
            Raster::Rgba8 { width, height, data } => {
                let gray = rgba_to_gray_alpha(&data);
                Raster::GrayA8 { width, height, data: gray }
            },
            other => other,
        }
    }

    /// Converts to bitonal: grayscale, then a 50% threshold to pure
    /// black/white (alpha, where present, is kept).
    pub fn into_bitonal(self) -> (r: Raster)
        ensures
            r.spec_width() == self.spec_width(),
            r.spec_height() == self.spec_height(),
            r.spec_channels() == gray_channels(self.spec_channels()),
            r.spec_data() == bitonal_data(self.spec_channels(), self.spec_data()),
    {
        match self.into_gray() {
            Raster::Gray8 { width, height, mut data } => {
                threshold_all(&mut data);
                Raster::Gray8 { width, height, data }
            },
            Raster::GrayA8 { width, height, mut data } => {
                threshold_pairs(&mut data);
                Raster::GrayA8 { width, height, data }
            },
            other => other,
        }
    }

    /// Flattens alpha over a white background, producing an opaque raster;
    /// a no-op for already-opaque rasters.
    pub fn flatten_over_white(self) -> (r: Raster)
        ensures
            r.spec_width() == self.spec_width(),
            r.spec_height() == self.spec_height(),
            r.spec_channels() == flat_channels(self.spec_channels()),
            r.spec_data() == flat_data(self.spec_channels(), self.spec_data()),
    {
        match self {
            Raster::GrayA8 { width, height, data } => {
                let flat = gray_alpha_to_flat(&data);
                Raster::Gray8 { width, height, data: flat }
            },
            Raster::Rgba8 { width, height, data } => {
                let flat = rgba_to_flat(&data);
                Raster::Rgb8 { width, height, data: flat }
            },
            other => other,
        }
    }
}


/// Rows of `d` (each `w` pixels of `bpp` samples) mirrored left to right;
/// a trailing partial row is kept.
pub open spec fn mirror_data(d: Seq<u8>, w: nat, bpp: nat) -> Seq<u8> {
    let rs = (w * bpp) as int;
    let rows = d.len() as int / rs;
    let w = w as int;
    let bpp = bpp as int;
    Seq::new(
        d.len(),
        |k: int|
            if k < rows * rs {
                let row = k / rs;
                let cb = k % rs;
                d[row * rs + (w - 1 - cb / bpp) * bpp + cb % bpp]
            } else {
                d[k]
            },
    )
}

/// The complete pixels of `d` in reverse order; trailing bytes kept.
pub open spec fn rot180_data(d: Seq<u8>, bpp: nat) -> Seq<u8> {
    let bpp = bpp as int;
    let p = d.len() as int / bpp;
    Seq::new(
        d.len(),
        |k: int|
            if k < p * bpp {
                d[(p - 1 - k / bpp) * bpp + k % bpp]
            } else {
                d[k]
            },
    )
}

/// A `w`×`h` raster turned a quarter turn clockwise (so `h` pixels wide):
/// output pixel (`x`, `y`) is input pixel (`y`, `h - 1 - x`). Bytes past
/// `w × h × bpp` come out zero.
pub open spec fn rot90_data(d: Seq<u8>, w: nat, h: nat, bpp: nat) -> Seq<u8> {
    let w = w as int;
    let h = h as int;
    let bpp = bpp as int;
    Seq::new(
        d.len(),
        |k: int|
            if k < w * h * bpp {
                let p = k / bpp;
                d[((h - 1 - p % h) * w + p / h) * bpp + k % bpp]
            } else {
                0u8
            },
    )
}

/// `x = q * d + r` with `0 <= r < d` bounds `x` below `(q + 1) * d`.
proof fn lemma_div_parts(x: int, d: int)
    requires
        d > 0,
        x >= 0,
    ensures
        x == (x / d) * d + x % d,
        0 <= x % d < d,
        x / d >= 0,
{
    lemma_fundamental_div_mod(x, d);
    assert((x / d) * d == d * (x / d)) by (nonlinear_arith);
}

/// An index `q * d + r` with `q < n`, `r < d` stays below `n * d`.
proof fn lemma_index_below(q: int, r: int, d: int, n: int)
    requires
        0 <= q < n,
        0 <= r < d,
    ensures
        0 <= q * d + r < n * d,
{
    assert(0 <= q * d + r < n * d) by (nonlinear_arith)
        requires
            0 <= q < n,
            0 <= r < d,
    ;
}

/// Mirroring twice gives back the samples it started from.
pub proof fn lemma_mirror_twice(d: Seq<u8>, w: nat, bpp: nat)
    requires
        w > 0,
        bpp > 0,
    ensures
        mirror_data(mirror_data(d, w, bpp), w, bpp) == d,
{
    let m = mirror_data(d, w, bpp);
    let mm = mirror_data(m, w, bpp);
    let rs = (w * bpp) as int;
    let wi = w as int;
    let b = bpp as int;
    assert(rs > 0) by (nonlinear_arith)
        requires
            rs == w * bpp,
            w > 0,
            bpp > 0,
    ;
    let rows = d.len() as int / rs;
    lemma_div_parts(d.len() as int, rs);
    assert(m.len() == d.len());
    assert forall|k: int| 0 <= k < d.len() implies mm[k] == d[k] by {
        if k < rows * rs {
            let row = k / rs;
            let cb = k % rs;
            lemma_div_parts(k, rs);
            lemma_div_parts(cb, b);
            let c = cb / b;
            let e = cb % b;
            assert(c < wi) by (nonlinear_arith)
                requires
                    cb < rs,
                    rs == wi * b,
                    cb == c * b + e,
                    e >= 0,
                    b > 0,
            ;
            let cb2 = (wi - 1 - c) * b + e;
            lemma_index_below(wi - 1 - c, e, b, wi);
            lemma_fundamental_div_mod_converse(cb2, b, wi - 1 - c, e);
            let j = row * rs + cb2;
            lemma_fundamental_div_mod_converse(j, rs, row, cb2);
            assert(row < rows) by (nonlinear_arith)
                requires
                    k < rows * rs,
                    k == row * rs + cb,
                    cb >= 0,
                    rs > 0,
            ;
            lemma_index_below(row, cb2, rs, rows);
            assert(m[j] == d[row * rs + (wi - 1 - (wi - 1 - c)) * b + e]);
            assert(k == row * rs + c * b + e);
        }
    }
    assert(mm =~= d);
}

/// A half turn done twice gives back the samples it started from.
pub proof fn lemma_rot180_twice(d: Seq<u8>, bpp: nat)
    requires
        bpp > 0,
    ensures
        rot180_data(rot180_data(d, bpp), bpp) == d,
{
    let m = rot180_data(d, bpp);
    let mm = rot180_data(m, bpp);
    let b = bpp as int;
    let p = d.len() as int / b;
    lemma_div_parts(d.len() as int, b);
    assert(m.len() == d.len());
    assert forall|k: int| 0 <= k < d.len() implies mm[k] == d[k] by {
        if k < p * b {
            lemma_div_parts(k, b);
            let q = k / b;
            let e = k % b;
            assert(q < p) by (nonlinear_arith)
                requires
                    k < p * b,
                    k == q * b + e,
                    e >= 0,
                    b > 0,
            ;
            let j = (p - 1 - q) * b + e;
            lemma_index_below(p - 1 - q, e, b, p);
            lemma_fundamental_div_mod_converse(j, b, p - 1 - q, e);
            assert(m[j] == d[(p - 1 - (p - 1 - q)) * b + e]);
        }
    }
    assert(mm =~= d);
}

/// Two quarter turns make a half turn: turning a `w`×`h` raster a quarter
/// turn, then the resulting `h`×`w` raster another, gives the pixels in
/// reverse order.
pub proof fn lemma_two_quarter_turns(d: Seq<u8>, w: nat, h: nat, bpp: nat)
    requires
        w > 0,
        h > 0,
        bpp > 0,
        d.len() == w * h * bpp,
    ensures
        rot90_data(rot90_data(d, w, h, bpp), h, w, bpp) == rot180_data(d, bpp),
{
    let wi = w as int;
    let hi = h as int;
    let b = bpp as int;
    let n = wi * hi * b;
    let e = rot90_data(d, w, h, bpp);
    let ee = rot90_data(e, h, w, bpp);
    let r = rot180_data(d, bpp);
    assert(n == hi * wi * b) by (nonlinear_arith)
        requires
            n == wi * hi * b,
    ;
    assert(wi * hi > 0) by (nonlinear_arith)
        requires
            wi > 0,
            hi > 0,
    ;
    lemma_fundamental_div_mod_converse(n, b, wi * hi, 0);
    let pp = d.len() as int / b;
    assert(pp == wi * hi);
    assert forall|k: int| 0 <= k < n implies ee[k] == r[k] by {
        lemma_div_parts(k, b);
        let p = k / b;
        let c = k % b;
        assert(p < wi * hi) by (nonlinear_arith)
            requires
                k < wi * hi * b,
                k == p * b + c,
                c >= 0,
                b > 0,
        ;
        // The outer turn reads `e` at pixel q.
        lemma_div_parts(p, wi);
        let py = p / wi;
        let px = p % wi;
        assert(py < hi) by (nonlinear_arith)
            requires
                p < wi * hi,
                p == py * wi + px,
                px >= 0,
                wi > 0,
        ;
        let q = (wi - 1 - px) * hi + py;
        lemma_index_below(wi - 1 - px, py, hi, wi);
        let j = q * b + c;
        lemma_index_below(q, c, b, hi * wi);
        lemma_fundamental_div_mod_converse(j, b, q, c);
        lemma_fundamental_div_mod_converse(q, hi, wi - 1 - px, py);
        assert(ee[k] == e[j]);
        // The inner turn reads `d` at pixel (py, w - 1 - px) from the end.
        let src = ((hi - 1 - py) * wi + (wi - 1 - px)) * b + c;
        assert(e[j] == d[src]);
        // The half turn reads the same pixel.
        assert((pp - 1 - p) == (hi - 1 - py) * wi + (wi - 1 - px)) by (nonlinear_arith)
            requires
                pp == wi * hi,
                p == py * wi + px,
        ;
        assert(r[k] == d[(pp - 1 - p) * b + c]);
    }
    assert(ee =~= r);
}

/// Mirrors complete rows of `w` pixels.
fn mirror_rows(d: &Vec<u8>, w: usize, bpp: usize) -> (r: Vec<u8>)
    requires
        w > 0,
        bpp > 0,
    ensures
        r@ == mirror_data(d@, w as nat, bpp as nat),
{
    let len = d.len();
    let rs = match w.checked_mul(bpp) {
        Some(rs) => rs,
        None => {
            // A row longer than the whole buffer: there is no complete row.
            proof {
                let rs = (w * bpp) as int;
                assert(len as int / rs == 0) by (nonlinear_arith)
                    requires
                        0 <= len < rs,
                ;
            }
            let out = d.clone();
            assert(out@ =~= mirror_data(d@, w as nat, bpp as nat));
            return out;
        },
    };
    assert(rs > 0) by (nonlinear_arith)
        requires
            rs == w * bpp,
            w > 0,
            bpp > 0,
    ;
    proof {
        lemma_div_parts(len as int, rs as int);
    }
    let rows = len / rs;
    let full = rows * rs;
    let mut out: Vec<u8> = Vec::with_capacity(len);
    let mut k: usize = 0;
    while k < len
        invariant
            len == d@.len(),
            rs == w * bpp,
            rs > 0,
            bpp > 0,
            w > 0,
            rows == len / rs,
            full == rows * rs,
            full <= len,
            k <= len,
            out@ == mirror_data(d@, w as nat, bpp as nat).take(k as int),
        decreases len - k,
    {
        let v = if k < full {
            let row = k / rs;
            let cb = k % rs;
            proof {
                lemma_div_parts(k as int, rs as int);
                lemma_div_parts(cb as int, bpp as int);
                assert(row < rows) by (nonlinear_arith)
                    requires
                        k < full,
                        full == rows * rs,
                        k == row * rs + cb,
                        cb >= 0,
                        rs > 0,
                ;
                assert(cb / bpp < w) by (nonlinear_arith)
                    requires
                        cb < rs,
                        rs == w * bpp,
                        cb == (cb / bpp) * bpp + cb % bpp,
                        cb % bpp >= 0,
                        bpp > 0,
                ;
                lemma_index_below((w - 1 - cb / bpp) as int, (cb % bpp) as int, bpp as int, w as int);
                lemma_index_below(row as int, ((w - 1 - cb / bpp) * bpp + cb % bpp) as int, rs as int, rows as int);
            }
            d[row * rs + (w - 1 - cb / bpp) * bpp + cb % bpp]
        } else {
            d[k]
        };
        out.push(v);
        assert(out@ =~= mirror_data(d@, w as nat, bpp as nat).take(k + 1));
        k += 1;
    }
    assert(out@ =~= mirror_data(d@, w as nat, bpp as nat));
    out
}

/// Reverses the order of the complete pixels.
fn reverse_pixels(d: &Vec<u8>, bpp: usize) -> (r: Vec<u8>)
    requires
        bpp > 0,
    ensures
        r@ == rot180_data(d@, bpp as nat),
{
    let len = d.len();
    proof {
        lemma_div_parts(len as int, bpp as int);
    }
    let p = len / bpp;
    let full = p * bpp;
    let mut out: Vec<u8> = Vec::with_capacity(len);
    let mut k: usize = 0;
    while k < len
        invariant
            len == d@.len(),
            bpp > 0,
            p == len / bpp,
            full == p * bpp,
            full <= len,
            k <= len,
            out@ == rot180_data(d@, bpp as nat).take(k as int),
        decreases len - k,
    {
        let v = if k < full {
            proof {
                lemma_div_parts(k as int, bpp as int);
                assert(k / bpp < p) by (nonlinear_arith)
                    requires
                        k < full,
                        full == p * bpp,
                        k == (k / bpp) * bpp + k % bpp,
                        k % bpp >= 0,
                        bpp > 0,
                ;
                lemma_index_below((p - 1 - k / bpp) as int, (k % bpp) as int, bpp as int, p as int);
            }
            d[(p - 1 - k / bpp) * bpp + k % bpp]
        } else {
            d[k]
        };
        out.push(v);
        assert(out@ =~= rot180_data(d@, bpp as nat).take(k + 1));
        k += 1;
    }
    assert(out@ =~= rot180_data(d@, bpp as nat));
    out
}

/// Turns a `w`×`h` raster's samples a quarter turn clockwise.
fn quarter_turn(d: &Vec<u8>, w: usize, h: usize, bpp: usize) -> (r: Vec<u8>)
    requires
        bpp > 0,
        w * h * bpp <= d@.len(),
    ensures
        r@ == rot90_data(d@, w as nat, h as nat, bpp as nat),
{
    let len = d.len();
    let mut out: Vec<u8> = Vec::with_capacity(len);
    let mut k: usize = 0;
    assert(w * h <= w * h * bpp) by (nonlinear_arith)
        requires
            bpp > 0,
    ;
    let wh = w * h;
    assert(wh * bpp == w * h * bpp) by (nonlinear_arith)
        requires
            wh == w * h,
    ;
    let n = wh * bpp;
    while k < len
        invariant
            len == d@.len(),
            bpp > 0,
            n == w * h * bpp,
            w * h <= n,
            n <= len,
            k <= len,
            out@ == rot90_data(d@, w as nat, h as nat, bpp as nat).take(k as int),
        decreases len - k,
    {
        let v = if k < n {
            let px = k / bpp;
            proof {
                lemma_div_parts(k as int, bpp as int);
                assert(px < w * h) by (nonlinear_arith)
                    requires
                        k < n,
                        n == (w * h) * bpp,
                        k == px * bpp + k % bpp,
                        k % bpp >= 0,
                        bpp > 0,
                ;
                assert(h > 0) by (nonlinear_arith)
                    requires
                        px < w * h,
                        px >= 0,
                ;
                lemma_div_parts(px as int, h as int);
                assert(px / h < w) by (nonlinear_arith)
                    requires
                        px < w * h,
                        px == (px / h) * h + px % h,
                        px % h >= 0,
                        h > 0,
                ;
                lemma_index_below((h - 1 - px % h) as int, (px / h) as int, w as int, h as int);
                assert((h * w) == (w * h)) by (nonlinear_arith);
                lemma_index_below(((h - 1 - px % h) * w + px / h) as int, (k % bpp) as int, bpp as int, (w * h) as int);
            }
            d[((h - 1 - px % h) * w + px / h) * bpp + k % bpp]
        } else {
            0u8
        };
        out.push(v);
        assert(out@ =~= rot90_data(d@, w as nat, h as nat, bpp as nat).take(k + 1));
        k += 1;
    }
    assert(out@ =~= rot90_data(d@, w as nat, h as nat, bpp as nat));
    out
}

impl Raster {
    /// The same layout and dimensions holding `data`.
    fn with_data(&self, width: u32, height: u32, data: Vec<u8>) -> (r: Raster)
        ensures
            r.spec_channels() == self.spec_channels(),
            r.spec_width() == width,
            r.spec_height() == height,
            r.spec_data() == data@,
    {
        match self {
            Raster::Gray8 { .. } => Raster::Gray8 { width, height, data },
            Raster::Rgb8 { .. } => Raster::Rgb8 { width, height, data },
            Raster::GrayA8 { .. } => Raster::GrayA8 { width, height, data },
            Raster::Rgba8 { .. } => Raster::Rgba8 { width, height, data },
        }
    }

    /// Mirrors on the vertical axis (left↔right), in place: every complete
    /// row is reversed pixel by pixel.
    pub fn mirror(&mut self)
        requires
            old(self).spec_width() > 0,
        ensures
            final(self).spec_channels() == old(self).spec_channels(),
            final(self).spec_width() == old(self).spec_width(),
            final(self).spec_height() == old(self).spec_height(),
            final(self).spec_data() == mirror_data(
                old(self).spec_data(),
                old(self).spec_width(),
                old(self).spec_channels(),
            ),
    {
        let w = self.width() as usize;
        let h = self.height();
        let bpp = self.channels() as usize;
        let out = match &*self {
            Raster::Gray8 { data, .. } => mirror_rows(data, w, bpp),
            Raster::Rgb8 { data, .. } => mirror_rows(data, w, bpp),
            Raster::GrayA8 { data, .. } => mirror_rows(data, w, bpp),
            Raster::Rgba8 { data, .. } => mirror_rows(data, w, bpp),
        };
        *self = self.with_data(w as u32, h, out);
    }

    /// Turns this raster a half turn, in place: the complete pixels in
    /// reverse order.
    pub fn rotate_180(&mut self)
        ensures
            final(self).spec_channels() == old(self).spec_channels(),
            final(self).spec_width() == old(self).spec_width(),
            final(self).spec_height() == old(self).spec_height(),
            final(self).spec_data() == rot180_data(
                old(self).spec_data(),
                old(self).spec_channels(),
            ),
    {
        let w = self.width();
        let h = self.height();
        let bpp = self.channels() as usize;
        let out = match &*self {
            Raster::Gray8 { data, .. } => reverse_pixels(data, bpp),
            Raster::Rgb8 { data, .. } => reverse_pixels(data, bpp),
            Raster::GrayA8 { data, .. } => reverse_pixels(data, bpp),
            Raster::Rgba8 { data, .. } => reverse_pixels(data, bpp),
        };
        *self = self.with_data(w, h, out);
    }

    /// This raster turned a quarter turn clockwise, as a new raster with
    /// the dimensions swapped.
    pub fn rotated_90(self) -> (r: Raster)
        requires
            self.spec_width() * self.spec_height() * self.spec_channels()
                <= self.spec_data().len(),
        ensures
            r.spec_channels() == self.spec_channels(),
            r.spec_width() == self.spec_height(),
            r.spec_height() == self.spec_width(),
            r.spec_data() == rot90_data(
                self.spec_data(),
                self.spec_width(),
                self.spec_height(),
                self.spec_channels(),
            ),
    {
        let w = self.width();
        let h = self.height();
        let bpp = self.channels() as usize;
        let out = match &self {
            Raster::Gray8 { data, .. } => quarter_turn(data, w as usize, h as usize, bpp),
            Raster::Rgb8 { data, .. } => quarter_turn(data, w as usize, h as usize, bpp),
            Raster::GrayA8 { data, .. } => quarter_turn(data, w as usize, h as usize, bpp),
            Raster::Rgba8 { data, .. } => quarter_turn(data, w as usize, h as usize, bpp),
        };
        self.with_data(h, w, out)
    }

    /// Rotates clockwise by the given number of quarter turns (taken
    /// modulo four).
    pub fn rotate_quarters(self, quarters: u8) -> (r: Raster)
        requires
            quarters % 4 == 1 || quarters % 4 == 3 ==> self.spec_width() * self.spec_height()
                * self.spec_channels() <= self.spec_data().len(),
        ensures
            r.spec_channels() == self.spec_channels(),
            quarters % 4 == 0 ==> r == self,
            quarters % 4 == 2 ==> r.spec_width() == self.spec_width() && r.spec_height()
                == self.spec_height() && r.spec_data() == rot180_data(
                self.spec_data(),
                self.spec_channels(),
            ),
            quarters % 4 == 1 ==> r.spec_width() == self.spec_height() && r.spec_height()
                == self.spec_width() && r.spec_data() == rot90_data(
                self.spec_data(),
                self.spec_width(),
                self.spec_height(),
                self.spec_channels(),
            ),
            quarters % 4 == 3 ==> r.spec_width() == self.spec_height() && r.spec_height()
                == self.spec_width() && r.spec_data() == rot180_data(
                rot90_data(
                    self.spec_data(),
                    self.spec_width(),
                    self.spec_height(),
                    self.spec_channels(),
                ),
                self.spec_channels(),
            ),
    {
        let q = quarters % 4;
        if q == 1 {
            self.rotated_90()
        } else if q == 2 {
            let mut out = self;
            out.rotate_180();
            out
        } else if q == 3 {
            let mut out = self.rotated_90();
            out.rotate_180();
            out
        } else {
            self
        }
    }
}

} // verus!
