//! Request evaluation: a parsed [`ImageRequest`] plus concrete image
//! dimensions and deployment limits become an executable [`Plan`] — or an
//! error the Image API mandates.
//!
//! All the dimension-dependent rules the grammar could not check live here.
//! Percentages and scale factors are exact rationals; a scaled length is
//! rounded half up (`round`) or down (`floor`, under a cap), and saturates at
//! `u32::MAX`, where the bounds and limit checks that follow catch it.

use vstd::prelude::*;
use crate::grammar::{
    Decimal, Format, ImageRequest, Quality, Region, Rotation, SizeKind, Size, quality_text,
    format_text, rotation_text, push_rotation, push_str, pow10_u128, lemma_pow10_bound,
};
use crate::info::{Info, Limits};
use vstd::arithmetic::div_mod::lemma_mod_mod;
use crate::text::{pow10, nat_text, push_char, push_u64};

verus! {

/// The extracted region in full-resolution pixel coordinates, already
/// clipped to the image edges.
#[derive(Debug, Clone, Copy, PartialEq, Eq, Structural)]
pub struct CropRect {
    /// Left edge in full-resolution pixels.
    pub x: u32,
    /// Top edge in full-resolution pixels.
    pub y: u32,
    /// Width in full-resolution pixels.
    pub w: u32,
    /// Height in full-resolution pixels.
    pub h: u32,
}

/// A fully evaluated request: everything the pipeline needs, nothing the
/// client sent left uninterpreted.
#[derive(Debug, Clone, PartialEq)]
pub struct Plan {
    /// Region to extract, clipped, in full-resolution pixels.
    pub crop: CropRect,
    /// Output width after scaling (before rotation swaps them).
    pub out_w: u32,
    /// Output height after scaling (before rotation swaps them).
    pub out_h: u32,
    /// Mirror before rotation.
    pub mirror: bool,
    /// Clockwise degrees, normalized to `0 ≤ degrees < 360`.
    pub degrees: Decimal,
    /// Requested quality, passed through to the raster stage.
    pub quality: Quality,
    /// Requested output format, passed through to the encode stage.
    pub format: Format,
    /// Whether the scale step upscales beyond the extracted region — used
    /// for the canonical `^` spelling.
    pub upscales: bool,
    /// Whether the size parameter was a `max` form — the canonical spelling
    /// keeps `max` rather than `w,h`.
    pub size_was_max: bool,
    /// Full image width, kept for canonical-form decisions.
    pub full_w: u32,
    /// Full image height, kept for canonical-form decisions.
    pub full_h: u32,
}

/// Evaluation failures the Image API mandates; every one is an HTTP 400.
#[derive(Debug, Clone, Copy, PartialEq, Eq, Structural)]
pub enum EvalError {
    /// Region entirely outside the image, or zero-pixel after clipping.
    RegionOutOfBounds,
    /// Non-`^` size larger than the extracted region.
    UpscaleWithoutFlag,
    /// Scaled dimensions below 1 pixel.
    BelowOnePixel,
    /// Scaled dimensions above `maxWidth`/`maxHeight`/`maxArea`.
    ExceedsLimits,
}

/// The HTTP status the Image API assigns to every evaluation failure.
pub const EVAL_ERROR_HTTP_STATUS: u16 = 400;

/// The message of each evaluation failure.
pub open spec fn eval_error_text(e: EvalError) -> Seq<char> {
    match e {
        EvalError::RegionOutOfBounds => "region is outside the image bounds"@,
        EvalError::UpscaleWithoutFlag => "requested size exceeds the extracted region (use the ^ prefix)"@,
        EvalError::BelowOnePixel => "scaled size is below one pixel"@,
        EvalError::ExceedsLimits => "scaled size exceeds the published limits"@,
    }
}

impl EvalError {
    /// The HTTP status of this failure (always 400).
    pub fn http_status(&self) -> (s: u16)
        ensures
            s == 400,
    {
        EVAL_ERROR_HTTP_STATUS
    }

    /// The human-readable message.
    pub fn to_string(&self) -> (s: String)
        ensures
            s@ == eval_error_text(*self),
    {
        let msg = match self {
            EvalError::RegionOutOfBounds => "region is outside the image bounds",
            EvalError::UpscaleWithoutFlag => "requested size exceeds the extracted region (use the ^ prefix)",
            EvalError::BelowOnePixel => "scaled size is below one pixel",
            EvalError::ExceedsLimits => "scaled size exceeds the published limits",
        };
        msg.to_string()
    }
}

// ---------------------------------------------------------------------------
// Exact arithmetic.
//
// Percentages, scales and the `max` size are computed exactly on the
// request's decimals (a digit string and a count of fractional digits),
// with halves rounded up. Binary64 arithmetic on the same numbers (the
// decimal read into the nearest double, divided by 100 and multiplied by
// the side) can land just below a half that is exact here: `pct:1.4` of a
// 250-pixel side is 3.5, rounded here to 4, where 1.4 ÷ 100 × 250 in
// binary64 is 3.4999999999999996 and rounds to 3.

/// `n / d` rounded to the nearest integer, halves up.
pub open spec fn round_div(n: nat, d: nat) -> nat {
    (2 * n + d) / (2 * d)
}

/// `v`, saturated at `u32::MAX`.
pub open spec fn sat_u32(v: nat) -> u32 {
    if v > u32::MAX {
        u32::MAX
    } else {
        v as u32
    }
}

/// The smaller of two naturals.
pub open spec fn min_nat(a: nat, b: nat) -> nat {
    if a <= b {
        a
    } else {
        b
    }
}

/// The integer square root: the largest `r` with `r * r <= x`.
pub open spec fn isqrt(x: nat) -> nat
    decreases x,
{
    if x == 0 {
        0
    } else {
        let r = isqrt((x - 1) as nat);
        if (r + 1) * (r + 1) <= x {
            r + 1
        } else {
            r
        }
    }
}

/// `p` percent of `full`, rounded and saturated.
pub open spec fn pct_pixels(p: Decimal, full: nat) -> u32 {
    sat_u32(round_div(p.num() * full, 100 * pow10(p.scale_of())))
}

/// `isqrt(x)` is the integer square root.
pub proof fn lemma_isqrt(x: nat)
    ensures
        isqrt(x) * isqrt(x) <= x < (isqrt(x) + 1) * (isqrt(x) + 1),
    decreases x,
{
    if x > 0 {
        lemma_isqrt((x - 1) as nat);
        let r = isqrt((x - 1) as nat);
        assert(r * r <= x - 1 < (r + 1) * (r + 1));
        let s = isqrt(x);
        if (r + 1) * (r + 1) <= x {
            assert(s == r + 1);
            assert(s * s <= x < (s + 1) * (s + 1)) by (nonlinear_arith)
                requires
                    s == r + 1,
                    x <= (r + 1) * (r + 1),
                    (r + 1) * (r + 1) <= x,
            ;
        } else {
            assert(s == r);
            assert(s * s <= x < (s + 1) * (s + 1));
        }
    } else {
        assert(isqrt(0) == 0);
        assert(0 * 0 <= 0int < 1 * 1);
    }
}

/// The integer square root is the only `r` with `r² <= x < (r + 1)²`.
pub proof fn lemma_isqrt_unique(x: nat, r: nat)
    requires
        r * r <= x < (r + 1) * (r + 1),
    ensures
        r == isqrt(x),
{
    lemma_isqrt(x);
    let s = isqrt(x);
    if r < s {
        assert((r + 1) * (r + 1) <= s * s) by (nonlinear_arith)
            requires
                r + 1 <= s,
        ;
    } else if s < r {
        assert((s + 1) * (s + 1) <= r * r) by (nonlinear_arith)
            requires
                s + 1 <= r,
        ;
    }
}

/// `n / d` rounded half up.
fn round_div_u128(n: u128, d: u128) -> (r: u128)
    requires
        d > 0,
        2 * n + 2 * d <= u128::MAX,
    ensures
        r == round_div(n as nat, d as nat),
        r <= n / d + 1,
{
    assert((2 * n + d) / (2 * d) <= n / d + 1) by (nonlinear_arith)
        requires
            d > 0,
    ;
    (2 * n + d) / (2 * d)
}

/// `v`, saturated at `u32::MAX`.
fn saturate_u32(v: u128) -> (r: u32)
    ensures
        r == sat_u32(v as nat),
{
    if v > 0xFFFF_FFFFu128 {
        0xFFFF_FFFFu32
    } else {
        v as u32
    }
}

/// The integer square root of `x < 2^96`.
fn isqrt_u128(x: u128) -> (r: u64)
    requires
        x < 0x1_0000_0000_0000_0000_0000_0000u128,
    ensures
        r == isqrt(x as nat),
        r <= 0x1_0000_0000_0000u64,
{
    let mut lo: u128 = 0;
    let mut hi: u128 = 0x1_0000_0000_0000u128;
    assert(hi * hi == 0x1_0000_0000_0000_0000_0000_0000u128) by (nonlinear_arith)
        requires
            hi == 0x1_0000_0000_0000u128,
    ;
    while hi - lo > 1
        invariant
            lo < hi <= 0x1_0000_0000_0000u128,
            lo * lo <= x,
            x < hi * hi,
        decreases hi - lo,
    {
        let mid = lo + (hi - lo) / 2;
        assert(mid * mid <= 0x1_0000_0000_0000_0000_0000_0000u128) by (nonlinear_arith)
            requires
                mid <= 0x1_0000_0000_0000u128,
        ;
        if mid * mid <= x {
            lo = mid;
        } else {
            hi = mid;
        }
    }
    proof {
        lemma_isqrt_unique(x as nat, lo as nat);
    }
    lo as u64
}

/// `p` percent of `full`, rounded and saturated.
fn pct_of(p: &Decimal, full: u32) -> (r: u32)
    ensures
        r == pct_pixels(*p, full as nat),
{
    let digits = p.digits();
    let scale = p.scale();
    let den = pow10_u128(scale);
    assert((digits as u128) * (full as u128) <= 1_000_000_000_000_000_000u128 * 0xFFFF_FFFFu128)
        by (nonlinear_arith)
        requires
            digits < 1_000_000_000_000_000_000u64,
    ;
    let n = (digits as u128) * (full as u128);
    let v = round_div_u128(n, 100 * den);
    saturate_u32(v)
}

// ---------------------------------------------------------------------------
// Region.

/// The region before the zero-size check: `None` when its origin lies
/// outside the image.
pub open spec fn clipped_region(region: Region, fw: u32, fh: u32) -> Option<CropRect> {
    match region {
        Region::Full => Some(CropRect { x: 0, y: 0, w: fw, h: fh }),
        Region::Square => {
            let side = if fw <= fh {
                fw
            } else {
                fh
            };
            Some(
                CropRect {
                    x: ((fw - side) / 2) as u32,
                    y: ((fh - side) / 2) as u32,
                    w: side,
                    h: side,
                },
            )
        },
        Region::Pixels { x, y, width, height } => if x >= fw || y >= fh {
            None
        } else {
            Some(
                CropRect {
                    x,
                    y,
                    w: min_nat(width as nat, (fw - x) as nat) as u32,
                    h: min_nat(height as nat, (fh - y) as nat) as u32,
                },
            )
        },
        Region::Percent { x, y, width, height } => {
            let px = pct_pixels(x, fw as nat);
            let py = pct_pixels(y, fh as nat);
            if px >= fw || py >= fh {
                None
            } else {
                Some(
                    CropRect {
                        x: px,
                        y: py,
                        w: min_nat(pct_pixels(width, fw as nat) as nat, (fw - px) as nat) as u32,
                        h: min_nat(pct_pixels(height, fh as nat) as nat, (fh - py) as nat) as u32,
                    },
                )
            }
        },
    }
}

/// The region in full-resolution pixels: `RegionOutOfBounds` when it lies
/// outside the image or clips to zero pixels.
pub open spec fn spec_resolve_region(region: Region, fw: u32, fh: u32) -> Result<
    CropRect,
    EvalError,
> {
    match clipped_region(region, fw, fh) {
        Some(c) => if c.w == 0 || c.h == 0 {
            Err(EvalError::RegionOutOfBounds)
        } else {
            Ok(c)
        },
        None => Err(EvalError::RegionOutOfBounds),
    }
}

/// Resolves the region against the full image.
fn resolve_region(region: Region, full_w: u32, full_h: u32) -> (r: Result<CropRect, EvalError>)
    ensures
        r == spec_resolve_region(region, full_w, full_h),
{
    let crop = match region {
        Region::Full => CropRect { x: 0, y: 0, w: full_w, h: full_h },
        Region::Square => {
            let side = if full_w <= full_h {
                full_w
            } else {
                full_h
            };
            CropRect { x: (full_w - side) / 2, y: (full_h - side) / 2, w: side, h: side }
        },
        Region::Pixels { x, y, width, height } => {
            if x >= full_w || y >= full_h {
                return Err(EvalError::RegionOutOfBounds);
            }
            let w = if width <= full_w - x {
                width
            } else {
                full_w - x
            };
            let h = if height <= full_h - y {
                height
            } else {
                full_h - y
            };
            CropRect { x, y, w, h }
        },
        Region::Percent { x, y, width, height } => {
            let px = pct_of(&x, full_w);
            let py = pct_of(&y, full_h);
            if px >= full_w || py >= full_h {
                return Err(EvalError::RegionOutOfBounds);
            }
            let pw = pct_of(&width, full_w);
            let ph = pct_of(&height, full_h);
            let w = if pw <= full_w - px {
                pw
            } else {
                full_w - px
            };
            let h = if ph <= full_h - py {
                ph
            } else {
                full_h - py
            };
            CropRect { x: px, y: py, w, h }
        },
    };
    if crop.w == 0 || crop.h == 0 {
        return Err(EvalError::RegionOutOfBounds);
    }
    Ok(crop)
}

/// A resolved region is non-empty and lies inside the image.
pub proof fn lemma_region_inside(region: Region, fw: u32, fh: u32)
    ensures
        spec_resolve_region(region, fw, fh) matches Ok(c) ==> {
            &&& c.w >= 1
            &&& c.h >= 1
            &&& c.x + c.w <= fw
            &&& c.y + c.h <= fh
        },
{
}

// ---------------------------------------------------------------------------
// Size.

/// One side of a `max` size: `own` scaled by the largest factor that keeps
/// the `own`×`other` region inside every limit (and, without `^`, at most
/// 1), floored, and at least one pixel. The factor is the least of
/// `own_limit / own`, `other_limit / other` and `sqrt(area / (own × other))`.
pub open spec fn max_side(
    own: nat,
    other: nat,
    own_limit: nat,
    other_limit: nat,
    area: nat,
    upscale: bool,
) -> nat {
    let by_limits = min_nat(
        min_nat(own_limit, other_limit * own / other),
        isqrt(area * own / other),
    );
    let capped = if upscale {
        by_limits
    } else {
        min_nat(by_limits, own)
    };
    if capped == 0 {
        1
    } else {
        capped
    }
}

/// The requested output size before saturation, for an `rw`×`rh` region.
pub open spec fn raw_size(size: Size, rw: nat, rh: nat, limits: Limits) -> Result<
    (nat, nat),
    EvalError,
> {
    let up = size.upscale;
    match size.kind {
        SizeKind::Max => Ok(
            (
                max_side(rw, rh, limits.width as nat, limits.height as nat, limits.area as nat, up),
                max_side(rh, rw, limits.height as nat, limits.width as nat, limits.area as nat, up),
            ),
        ),
        SizeKind::Width(w) => if !up && w > rw {
            Err(EvalError::UpscaleWithoutFlag)
        } else {
            Ok((w as nat, round_div(rh * (w as nat), rw)))
        },
        SizeKind::Height(h) => if !up && h > rh {
            Err(EvalError::UpscaleWithoutFlag)
        } else {
            Ok((round_div(rw * (h as nat), rh), h as nat))
        },
        SizeKind::Percent(p) => Ok(
            (
                round_div(rw * p.num(), 100 * pow10(p.scale_of())),
                round_div(rh * p.num(), 100 * pow10(p.scale_of())),
            ),
        ),
        SizeKind::WidthHeight(w, h) => if !up && (w > rw || h > rh) {
            Err(EvalError::UpscaleWithoutFlag)
        } else {
            Ok((w as nat, h as nat))
        },
        SizeKind::Confined(w, h) => if !up && w > rw && h > rh {
            Err(EvalError::UpscaleWithoutFlag)
        } else if w * rh <= h * rw {
            Ok((w as nat, round_div(rh * (w as nat), rw)))
        } else {
            Ok((round_div(rw * (h as nat), rh), h as nat))
        },
    }
}

/// The output size `(out_w, out_h, upscales)` for an `rw`×`rh` region. Each
/// side saturates at `u32::MAX`; without `^`, a side that rounding pushed
/// past the region is clamped to it.
pub open spec fn spec_resolve_size(size: Size, rw: u32, rh: u32, limits: Limits) -> Result<
    (u32, u32, bool),
    EvalError,
> {
    match raw_size(size, rw as nat, rh as nat, limits) {
        Err(e) => Err(e),
        Ok((a, b)) => {
            let ow = sat_u32(a);
            let oh = sat_u32(b);
            if (ow > rw || oh > rh) && !size.upscale {
                Ok(
                    (
                        if ow <= rw {
                            ow
                        } else {
                            rw
                        },
                        if oh <= rh {
                            oh
                        } else {
                            rh
                        },
                        false,
                    ),
                )
            } else {
                Ok((ow, oh, ow > rw || oh > rh))
            }
        },
    }
}

/// One side of a `max` size.
fn max_side_exec(
    own: u32,
    other: u32,
    own_limit: u32,
    other_limit: u32,
    area: u64,
    upscale: bool,
) -> (r: u32)
    requires
        own >= 1,
        other >= 1,
    ensures
        r == max_side(
            own as nat,
            other as nat,
            own_limit as nat,
            other_limit as nat,
            area as nat,
            upscale,
        ),
{
    assert((other_limit as u128) * (own as u128) <= 0xFFFF_FFFFu128 * 0xFFFF_FFFFu128
        && (area as u128) * (own as u128) <= 0xFFFF_FFFF_FFFF_FFFFu128 * 0xFFFF_FFFFu128)
        by (nonlinear_arith)
        requires
            other_limit <= 0xFFFF_FFFFu32,
            own <= 0xFFFF_FFFFu32,
            area <= 0xFFFF_FFFF_FFFF_FFFFu64,
    ;
    let by_height = (other_limit as u128) * (own as u128) / (other as u128);
    let q = (area as u128) * (own as u128) / (other as u128);
    assert(q <= (area as int) * (own as int)) by (nonlinear_arith)
        requires
            q == (area as int) * (own as int) / (other as int),
            other >= 1,
            area >= 0,
            own >= 0,
    ;
    let by_area = isqrt_u128(q);
    let mut m: u128 = own_limit as u128;
    if by_height < m {
        m = by_height;
    }
    if (by_area as u128) < m {
        m = by_area as u128;
    }
    if !upscale && (own as u128) < m {
        m = own as u128;
    }
    if m == 0 {
        1
    } else {
        m as u32
    }
}

/// Resolves the requested size against an `rw`×`rh` region.
fn resolve_size(size: Size, rw: u32, rh: u32, limits: Limits) -> (r: Result<
    (u32, u32, bool),
    EvalError,
>)
    requires
        rw >= 1,
        rh >= 1,
    ensures
        r == spec_resolve_size(size, rw, rh, limits),
{
    let up = size.upscale;
    let ghost raw = raw_size(size, rw as nat, rh as nat, limits);
    let (out_w, out_h): (u32, u32) = match size.kind {
        SizeKind::Max => (
            max_side_exec(rw, rh, limits.width, limits.height, limits.area, up),
            max_side_exec(rh, rw, limits.height, limits.width, limits.area, up),
        ),
        SizeKind::Width(w) => {
            if !up && w > rw {
                return Err(EvalError::UpscaleWithoutFlag);
            }
            (w, scale_side(rh, w, rw))
        },
        SizeKind::Height(h) => {
            if !up && h > rh {
                return Err(EvalError::UpscaleWithoutFlag);
            }
            (scale_side(rw, h, rh), h)
        },
        SizeKind::Percent(p) => (pct_scale(rw, &p), pct_scale(rh, &p)),
        SizeKind::WidthHeight(w, h) => {
            if !up && (w > rw || h > rh) {
                return Err(EvalError::UpscaleWithoutFlag);
            }
            (w, h)
        },
        SizeKind::Confined(w, h) => {
            if !up && w > rw && h > rh {
                return Err(EvalError::UpscaleWithoutFlag);
            }
            assert((w as u64) * (rh as u64) <= 0xFFFF_FFFFu64 * 0xFFFF_FFFFu64 && (h as u64) * (
            rw as u64) <= 0xFFFF_FFFFu64 * 0xFFFF_FFFFu64) by (nonlinear_arith)
                requires
                    w <= 0xFFFF_FFFFu32,
                    h <= 0xFFFF_FFFFu32,
                    rw <= 0xFFFF_FFFFu32,
                    rh <= 0xFFFF_FFFFu32,
            ;
            if (w as u64) * (rh as u64) <= (h as u64) * (rw as u64) {
                (w, scale_side(rh, w, rw))
            } else {
                (scale_side(rw, h, rh), h)
            }
        },
    };
    let upscales = out_w > rw || out_h > rh;
    if upscales && !up {
        let cw = if out_w <= rw {
            out_w
        } else {
            rw
        };
        let ch = if out_h <= rh {
            out_h
        } else {
            rh
        };
        return Ok((cw, ch, false));
    }
    Ok((out_w, out_h, upscales))
}

/// `side × num / den`, rounded and saturated.
fn scale_side(side: u32, num: u32, den: u32) -> (r: u32)
    requires
        den >= 1,
    ensures
        r == sat_u32(round_div((side as nat) * (num as nat), den as nat)),
{
    assert((side as u128) * (num as u128) <= 0xFFFF_FFFFu128 * 0xFFFF_FFFFu128) by (nonlinear_arith)
        requires
            side <= 0xFFFF_FFFFu32,
            num <= 0xFFFF_FFFFu32,
    ;
    saturate_u32(round_div_u128((side as u128) * (num as u128), den as u128))
}

/// `side × p / 100`, rounded and saturated.
fn pct_scale(side: u32, p: &Decimal) -> (r: u32)
    ensures
        r == sat_u32(round_div((side as nat) * p.num(), 100 * pow10(p.scale_of()))),
{
    let digits = p.digits();
    let den = pow10_u128(p.scale());
    assert((side as u128) * (digits as u128) <= 0xFFFF_FFFFu128 * 1_000_000_000_000_000_000u128)
        by (nonlinear_arith)
        requires
            side <= 0xFFFF_FFFFu32,
            digits < 1_000_000_000_000_000_000u64,
    ;
    saturate_u32(round_div_u128((side as u128) * (digits as u128), 100 * den))
}

// ---------------------------------------------------------------------------
// Evaluation.

/// `d` reduced modulo 360 degrees (so 360 becomes 0).
pub open spec fn normalized_degrees(d: Decimal) -> Decimal {
    Decimal::of(d.num() % (360 * pow10(d.scale_of())), d.scale_of())
}

/// What evaluation decides: the crop, the output size and whether it
/// upscales — or the failure.
pub open spec fn spec_evaluate(request: ImageRequest, full_w: u32, full_h: u32, limits: Limits) -> Result<
    (CropRect, u32, u32, bool),
    EvalError,
> {
    match spec_resolve_region(request.region, full_w, full_h) {
        Err(e) => Err(e),
        Ok(crop) => match spec_resolve_size(request.size, crop.w, crop.h, limits) {
            Err(e) => Err(e),
            Ok((ow, oh, ups)) => if ow == 0 || oh == 0 {
                Err(EvalError::BelowOnePixel)
            } else if ow > limits.width || oh > limits.height || ow * oh > limits.area {
                Err(EvalError::ExceedsLimits)
            } else {
                Ok((crop, ow, oh, ups))
            },
        },
    }
}

impl Plan {
    /// Whether the extracted region is the entire image.
    pub open spec fn spec_is_full_region(self) -> bool {
        &&& self.crop.x == 0
        &&& self.crop.y == 0
        &&& self.crop.w == self.full_w
        &&& self.crop.h == self.full_h
    }
}

/// Whether `p` is the plan for `request` on a `full_w`×`full_h` image whose
/// evaluation decided `crop`, `out_w`×`out_h` and `upscales`.
pub open spec fn plan_matches(
    p: Plan,
    request: ImageRequest,
    full_w: u32,
    full_h: u32,
    decided: (CropRect, u32, u32, bool),
) -> bool {
    &&& p.crop == decided.0
    &&& p.out_w == decided.1
    &&& p.out_h == decided.2
    &&& p.upscales == decided.3
    &&& p.mirror == request.rotation.mirror
    &&& p.degrees == normalized_degrees(request.rotation.degrees)
    &&& p.quality == request.quality
    &&& p.format == request.format
    &&& p.size_was_max == (request.size.kind is Max)
    &&& p.full_w == full_w
    &&& p.full_h == full_h
}

/// `d` reduced modulo 360 degrees.
fn normalize_degrees(d: &Decimal) -> (r: Decimal)
    ensures
        r == normalized_degrees(*d),
{
    let digits = d.digits();
    let scale = d.scale();
    let p = pow10_u128(scale);
    let m = 360 * p;
    let rem = (digits as u128) % m;
    assert(rem <= digits) by (nonlinear_arith)
        requires
            rem == (digits as int) % (m as int),
            m > 0,
            digits >= 0,
    ;
    proof {
        if scale > 0 {
            assert(pow10(scale as nat) == 10 * pow10((scale - 1) as nat));
            let k = pow10((scale - 1) as nat);
            assert(m == 10 * (360 * k)) by (nonlinear_arith)
                requires
                    m == 360 * p,
                    p == 10 * k,
            ;
            lemma_pow10_bound((scale - 1) as nat);
            lemma_mod_mod(digits as int, 10, (360 * k) as int);
            assert(rem % 10 == (digits as int) % 10);
            lemma_pow10_bound((scale - 1) as nat);
        }
    }
    match Decimal::new(rem as u64, scale) {
        Some(r) => r,
        None => {
            proof {
                assert(false);
            }
            *d
        },
    }
}

/// Evaluates a request against an image's full dimensions and the
/// deployment limits.
///
/// # Errors
///
/// Every [`EvalError`] maps to HTTP 400 per the Image API's region/size rules.
pub fn evaluate(request: &ImageRequest, full_w: u32, full_h: u32, limits: Limits) -> (r: Result<
    Plan,
    EvalError,
>)
    ensures
        match spec_evaluate(*request, full_w, full_h, limits) {
            Err(e) => r == Err::<Plan, EvalError>(e),
            Ok(decided) => r matches Ok(p) && plan_matches(p, *request, full_w, full_h, decided),
        },
        r matches Ok(p) ==> plan_within_bounds(p, request.size.upscale, full_w, full_h, limits),
{
    let crop = resolve_region(request.region, full_w, full_h)?;
    proof {
        lemma_region_inside(request.region, full_w, full_h);
    }
    let (out_w, out_h, upscales) = resolve_size(request.size, crop.w, crop.h, limits)?;
    if out_w == 0 || out_h == 0 {
        return Err(EvalError::BelowOnePixel);
    }
    assert((out_w as u64) * (out_h as u64) <= 0xFFFF_FFFFu64 * 0xFFFF_FFFFu64) by (nonlinear_arith)
        requires
            out_w <= 0xFFFF_FFFFu32,
            out_h <= 0xFFFF_FFFFu32,
    ;
    if out_w > limits.width || out_h > limits.height || (out_w as u64) * (out_h as u64)
        > limits.area {
        return Err(EvalError::ExceedsLimits);
    }
    let p = Plan {
        crop,
        out_w,
        out_h,
        mirror: request.rotation.mirror,
        degrees: normalize_degrees(&request.rotation.degrees),
        quality: request.quality,
        format: request.format,
        upscales,
        size_was_max: matches!(request.size.kind, SizeKind::Max),
        full_w,
        full_h,
    };
    proof {
        lemma_evaluate_bounds(*request, full_w, full_h, limits);
    }
    Ok(p)
}

/// What every successful plan satisfies: a non-empty crop inside the image,
/// an output of at least one pixel inside the limits, and — without `^` —
/// an output no larger than the crop.
pub open spec fn plan_within_bounds(
    p: Plan,
    upscale_flag: bool,
    full_w: u32,
    full_h: u32,
    limits: Limits,
) -> bool {
    &&& 1 <= p.crop.w
    &&& 1 <= p.crop.h
    &&& p.crop.x + p.crop.w <= full_w
    &&& p.crop.y + p.crop.h <= full_h
    &&& 1 <= p.out_w <= limits.width
    &&& 1 <= p.out_h <= limits.height
    &&& p.out_w * p.out_h <= limits.area
    &&& p.upscales == (p.out_w > p.crop.w || p.out_h > p.crop.h)
    &&& !upscale_flag ==> p.out_w <= p.crop.w && p.out_h <= p.crop.h
}

/// Every successful evaluation yields a crop inside the image and an output
/// inside the limits; without `^` the output never exceeds the crop, and
/// `upscales` says exactly whether it does.
pub proof fn lemma_evaluate_bounds(request: ImageRequest, full_w: u32, full_h: u32, limits: Limits)
    ensures
        spec_evaluate(request, full_w, full_h, limits) matches Ok((crop, ow, oh, ups)) ==> {
            &&& 1 <= crop.w
            &&& 1 <= crop.h
            &&& crop.x + crop.w <= full_w
            &&& crop.y + crop.h <= full_h
            &&& 1 <= ow <= limits.width
            &&& 1 <= oh <= limits.height
            &&& ow * oh <= limits.area
            &&& ups == (ow > crop.w || oh > crop.h)
            &&& !request.size.upscale ==> ow <= crop.w && oh <= crop.h
        },
{
    lemma_region_inside(request.region, full_w, full_h);
}

/// Rounding `n / d` to the nearest integer stays within any whole bound of
/// the exact quotient.
proof fn lemma_round_div_within(n: nat, d: nat, bound: nat)
    requires
        d >= 1,
        n <= bound * d,
    ensures
        round_div(n, d) <= bound,
{
    let x = 2 * n + d;
    let q = x / (2 * d);
    assert(q * (2 * d) <= x) by (nonlinear_arith)
        requires
            q == x / (2 * d),
            d >= 1,
    ;
    assert(q <= bound) by (nonlinear_arith)
        requires
            q * (2 * d) <= x,
            x == 2 * n + d,
            n <= bound * d,
            d >= 1,
    ;
}

/// `round_div(n, d)` is the integer nearest `n / d`, halves up:
/// `2 q d <= 2 n + d < 2 q d + 2 d`.
proof fn lemma_round_div_nearest(n: nat, d: nat)
    requires
        d >= 1,
    ensures
        2 * round_div(n, d) * d <= 2 * n + d,
        2 * n < 2 * round_div(n, d) * d + d,
{
    let q = round_div(n, d);
    let x = 2 * n + d;
    assert(q * (2 * d) <= x < (q + 1) * (2 * d)) by (nonlinear_arith)
        requires
            q == x / (2 * d),
            d >= 1,
    ;
    assert(2 * q * d <= 2 * n + d && 2 * n < 2 * q * d + d) by (nonlinear_arith)
        requires
            q * (2 * d) <= x < (q + 1) * (2 * d),
            x == 2 * n + d,
    ;
}

/// A `!w,h` size fits inside its box: whenever it resolves against a
/// region, the output is at most `w` wide and `h` high; the side whose
/// bound is the tighter for the region's aspect ratio meets it exactly, and
/// the other is the region's aspect ratio applied to it, rounded to the
/// nearest pixel (within half a pixel of exact).
pub proof fn lemma_confined_fits(
    upscale: bool,
    w: u32,
    h: u32,
    rw: u32,
    rh: u32,
    limits: Limits,
)
    requires
        rw >= 1,
        rh >= 1,
        spec_resolve_size(Size { upscale, kind: SizeKind::Confined(w, h) }, rw, rh, limits) is Ok,
    ensures
        ({
            let (ow, oh, _) = spec_resolve_size(
                Size { upscale, kind: SizeKind::Confined(w, h) },
                rw,
                rh,
                limits,
            )->Ok_0;
            &&& ow <= w
            &&& oh <= h
            &&& (ow == w || oh == h)
            &&& (w * rh <= h * rw ==> ow == w && 2 * oh * rw <= 2 * rh * w + rw && 2 * rh * w < 2
                * oh * rw + rw)
            &&& (w * rh > h * rw ==> oh == h && 2 * ow * rh <= 2 * rw * h + rh && 2 * rw * h < 2
                * ow * rh + rh)
        }),
{
    let size = Size { upscale, kind: SizeKind::Confined(w, h) };
    let (rwn, rhn) = (rw as nat, rh as nat);
    if w * rh <= h * rw {
        lemma_round_div_within(rhn * (w as nat), rwn, h as nat);
        lemma_round_div_nearest(rhn * (w as nat), rwn);
        let q = round_div(rhn * (w as nat), rwn);
        let oh = spec_resolve_size(size, rw, rh, limits)->Ok_0.1;
        if !upscale {
            if w > rw {
                assert(h * rw > rh * rw) by (nonlinear_arith)
                    requires
                        w * rh <= h * rw,
                        w > rw,
                        rh >= 1,
                ;
                assert(h > rh) by (nonlinear_arith)
                    requires
                        h * rw > rh * rw,
                ;
            }
        }
        if !upscale {
            assert(w <= rw);
            assert(rhn * (w as nat) <= rhn * rwn) by (nonlinear_arith)
                requires
                    w <= rw,
                    rwn == rw,
            ;
            lemma_round_div_within(rhn * (w as nat), rwn, rhn);
        }
        assert(q <= h);
        assert(raw_size(size, rwn, rhn, limits) == Ok::<(nat, nat), EvalError>((w as nat, q)));
        assert(oh == q);
        assert(2 * oh * rw <= 2 * rh * w + rw && 2 * rh * w < 2 * oh * rw + rw) by (nonlinear_arith)
            requires
                oh == q,
                2 * q * rwn <= 2 * (rhn * (w as nat)) + rwn,
                2 * (rhn * (w as nat)) < 2 * q * rwn + rwn,
                rwn == rw,
                rhn == rh,
        ;
    } else {
        lemma_round_div_within(rwn * (h as nat), rhn, w as nat);
        lemma_round_div_nearest(rwn * (h as nat), rhn);
        let q = round_div(rwn * (h as nat), rhn);
        let ow = spec_resolve_size(size, rw, rh, limits)->Ok_0.0;
        if !upscale {
            if h > rh {
                assert(w * rh > rw * rh) by (nonlinear_arith)
                    requires
                        w * rh > h * rw,
                        h > rh,
                        rw >= 1,
                ;
                assert(w > rw) by (nonlinear_arith)
                    requires
                        w * rh > rw * rh,
                ;
            }
        }
        if !upscale {
            assert(h <= rh);
            assert(rwn * (h as nat) <= rwn * rhn) by (nonlinear_arith)
                requires
                    h <= rh,
                    rhn == rh,
            ;
            lemma_round_div_within(rwn * (h as nat), rhn, rwn);
        }
        assert(q <= w);
        assert(raw_size(size, rwn, rhn, limits) == Ok::<(nat, nat), EvalError>((q, h as nat)));
        assert(ow == q);
        assert(2 * ow * rh <= 2 * rw * h + rh && 2 * rw * h < 2 * ow * rh + rh) by (nonlinear_arith)
            requires
                ow == q,
                2 * q * rhn <= 2 * (rwn * (h as nat)) + rhn,
                2 * (rwn * (h as nat)) < 2 * q * rhn + rhn,
                rwn == rw,
                rhn == rh,
        ;
    }
}

/// An evaluated `!w,h` request delivers an image inside its box, one side
/// on the bound and the other keeping the region's aspect ratio to the
/// nearest pixel: the best fit. At 6000×4000, `!300,100` gives 150×100.
pub proof fn lemma_evaluate_confined(
    request: ImageRequest,
    w: u32,
    h: u32,
    full_w: u32,
    full_h: u32,
    limits: Limits,
)
    requires
        request.size.kind == SizeKind::Confined(w, h),
        spec_evaluate(request, full_w, full_h, limits) is Ok,
    ensures
        ({
            let (crop, ow, oh, _) = spec_evaluate(request, full_w, full_h, limits)->Ok_0;
            let (rw, rh) = (crop.w, crop.h);
            &&& ow <= w
            &&& oh <= h
            &&& (ow == w || oh == h)
            &&& (w * rh <= h * rw ==> ow == w && 2 * oh * rw <= 2 * rh * w + rw && 2 * rh * w < 2
                * oh * rw + rw)
            &&& (w * rh > h * rw ==> oh == h && 2 * ow * rh <= 2 * rw * h + rh && 2 * rw * h < 2
                * ow * rh + rh)
        }),
{
    lemma_evaluate_bounds(request, full_w, full_h, limits);
    let crop = spec_resolve_region(request.region, full_w, full_h)->Ok_0;
    assert(request.size == Size { upscale: request.size.upscale, kind: SizeKind::Confined(w, h) });
    lemma_confined_fits(request.size.upscale, w, h, crop.w, crop.h, limits);
}

/// The limits info.json publishes are the limits evaluation enforces: for
/// the document built with a deployment's limits, every image a request
/// evaluates to under those limits fits inside the published `maxWidth`,
/// `maxHeight` and `maxArea`.
pub proof fn lemma_published_limits_hold(
    info: Info,
    request: ImageRequest,
    full_w: u32,
    full_h: u32,
    limits: Limits,
)
    requires
        info.max_width == limits.width,
        info.max_height == limits.height,
        info.max_area == limits.area,
    ensures
        spec_evaluate(request, full_w, full_h, limits) matches Ok((crop, ow, oh, ups)) ==> {
            &&& ow <= info.max_width
            &&& oh <= info.max_height
            &&& ow * oh <= info.max_area
        },
{
    lemma_evaluate_bounds(request, full_w, full_h, limits);
}

// ---------------------------------------------------------------------------
// Canonical form.

/// The canonical spelling of the plan's region: `full`, or the clipped
/// rectangle.
pub open spec fn canonical_region_text(p: Plan) -> Seq<char> {
    if p.spec_is_full_region() {
        "full"@
    } else {
        nat_text(p.crop.x as nat) + seq![','] + nat_text(p.crop.y as nat) + seq![','] + nat_text(
            p.crop.w as nat,
        ) + seq![','] + nat_text(p.crop.h as nat)
    }
}

/// The canonical spelling of the plan's size: `max` forms stay `max`, every
/// other form becomes the exact `w,h`; `^` exactly when the plan upscales.
pub open spec fn canonical_size_text(p: Plan) -> Seq<char> {
    let body = if p.size_was_max {
        "max"@
    } else {
        nat_text(p.out_w as nat) + seq![','] + nat_text(p.out_h as nat)
    };
    if p.upscales {
        seq!['^'] + body
    } else {
        body
    }
}

/// The canonical request path `region/size/rotation/quality.format`.
pub open spec fn canonical_text(p: Plan) -> Seq<char> {
    canonical_region_text(p) + seq!['/'] + canonical_size_text(p) + seq!['/'] + rotation_text(
        Rotation { mirror: p.mirror, degrees: p.degrees },
    ) + seq!['/'] + quality_text(p.quality) + seq!['.'] + format_text(p.format)
}

impl Plan {
    /// Whether the extracted region is the entire image.
    pub fn is_full_region(&self) -> (b: bool)
        ensures
            b == self.spec_is_full_region(),
    {
        self.crop.x == 0 && self.crop.y == 0 && self.crop.w == self.full_w && self.crop.h
            == self.full_h
    }

    /// The canonical request path (region/size/rotation/quality.format) per
    /// the Image API's canonical-form rules, used for the `Link rel="canonical"`
    /// header.
    pub fn canonical_path(&self) -> (s: String)
        ensures
            s@ == canonical_text(*self),
    {
        let mut s = String::new();
        push_canonical_region(&mut s, self);
        push_char(&mut s, '/');
        push_canonical_size(&mut s, self);
        push_char(&mut s, '/');
        let rotation = Rotation { mirror: self.mirror, degrees: self.degrees };
        push_rotation(&mut s, &rotation);
        push_char(&mut s, '/');
        push_str(&mut s, self.quality.as_str());
        push_char(&mut s, '.');
        push_str(&mut s, self.format.as_str());
        assert(s@ =~= canonical_text(*self));
        s
    }
}

/// Appends the canonical region.
pub fn push_canonical_region(s: &mut String, p: &Plan)
    ensures
        final(s)@ == old(s)@ + canonical_region_text(*p),
{
    if p.is_full_region() {
        push_str(s, "full");
    } else {
        push_u64(s, p.crop.x as u64);
        push_char(s, ',');
        push_u64(s, p.crop.y as u64);
        push_char(s, ',');
        push_u64(s, p.crop.w as u64);
        push_char(s, ',');
        push_u64(s, p.crop.h as u64);
    }
    assert(s@ =~= old(s)@ + canonical_region_text(*p));
}

/// Appends the canonical size.
fn push_canonical_size(s: &mut String, p: &Plan)
    ensures
        final(s)@ == old(s)@ + canonical_size_text(*p),
{
    if p.upscales {
        push_char(s, '^');
    }
    if p.size_was_max {
        push_str(s, "max");
    } else {
        push_u64(s, p.out_w as u64);
        push_char(s, ',');
        push_u64(s, p.out_h as u64);
    }
    assert(s@ =~= old(s)@ + canonical_size_text(*p));
}

} // verus!
