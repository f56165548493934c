//! Plan execution, the compute half: resample → quality → mirror →
//! quarter-turn rotation, then encode. Decoding the crop, and rotation by an
//! arbitrary angle (floating-point resampling), are done by the caller.

use vstd::prelude::*;
use crate::codec::{CodecError, codec_error_text};
use crate::encode::{EncodeError, encode_error_text};
use crate::eval::Plan;
use crate::grammar::{Decimal, Quality, push_str};
use crate::image::{
    Raster, RasterError, bitonal_data, gray_channels, gray_data, mirror_data, rot180_data,
    rot90_data,
};
use crate::text::pow10;

verus! {

/// Pipeline failure, split by who caused it.
#[derive(Debug)]
pub enum PipelineError {
    /// Decoding the master failed.
    Codec(CodecError),
    /// Encoding the output failed.
    Encode(EncodeError),
    /// Raster geometry/buffer invariant broke.
    Raster(RasterError),
    /// The resize step failed.
    Resize(String),
}

/// The text of a pipeline failure.
pub open spec fn pipeline_error_text(e: PipelineError) -> Seq<char> {
    match e {
        PipelineError::Codec(c) => codec_error_text(c),
        PipelineError::Encode(c) => encode_error_text(c),
        PipelineError::Raster(r) => "raster error: "@ + r.0@,
        PipelineError::Resize(m) => "resample failure: "@ + m@,
    }
}

impl PipelineError {
    /// The human-readable message.
    pub fn to_string(&self) -> (s: String)
        ensures
            s@ == pipeline_error_text(*self),
    {
        match self {
            PipelineError::Codec(c) => c.to_string(),
            PipelineError::Encode(c) => c.to_string(),
            PipelineError::Raster(r) => {
                let mut s = String::new();
                push_str(&mut s, "raster error: ");
                push_str(&mut s, r.0.as_str());
                s
            },
            PipelineError::Resize(m) => {
                let mut s = String::new();
                push_str(&mut s, "resample failure: ");
                push_str(&mut s, m.as_str());
                s
            },
        }
    }
}

/// The samples `fast_image_resize` produces resampling `data`, a `w`×`h`
/// image with `channels` one-byte samples per pixel, to `out_w`×`out_h`
/// with Lanczos3 convolution (alpha premultiplied, as its default options
/// ask).
pub uninterp spec fn lanczos3_resampled(
    data: Seq<u8>,
    w: u32,
    h: u32,
    out_w: u32,
    out_h: u32,
    channels: u32,
) -> Seq<u8>;

/// Resamples `data` (a `w`×`h` image with `channels` samples per pixel) to
/// `out_w`×`out_h` with `fast_image_resize` (Lanczos3 convolution). The
/// samples are named by [`lanczos3_resampled`]: the crate's own tests hold
/// every CPU extension to one checksum. `Image::from_vec_u8` computes
/// `w × h × channels` in `usize` (so sizes that overflow it are left out)
/// and refuses a buffer shorter than that (one-byte samples are always
/// aligned); `Resizer::resize` refuses only differing pixel types or a crop
/// box outside the source, neither of which arises here. So it succeeds
/// exactly on a long enough buffer, and the buffer it returns is the one
/// `Image::new` allocates, exactly `out_w × out_h × channels` bytes.
#[verifier::external_body]
fn resample(data: Vec<u8>, w: u32, h: u32, out_w: u32, out_h: u32, channels: u32) -> (r: Result<
    Vec<u8>,
    String,
>)
    requires
        1 <= channels <= 4,
        w * h * channels <= usize::MAX,
        out_w * out_h * channels <= usize::MAX,
    ensures
        r is Ok <==> data@.len() >= w * h * channels,
        r matches Ok(v) ==> v@ == lanczos3_resampled(data@, w, h, out_w, out_h, channels)
            && v@.len() == out_w * out_h * channels,
{
    let pixel_type = match channels {
        1 => fast_image_resize::PixelType::U8,
        2 => fast_image_resize::PixelType::U8x2,
        3 => fast_image_resize::PixelType::U8x3,
        _ => fast_image_resize::PixelType::U8x4,
    };
    let src = fast_image_resize::images::Image::from_vec_u8(w, h, data, pixel_type).map_err(|e| e.to_string())?;
    let mut dst = fast_image_resize::images::Image::new(out_w, out_h, pixel_type);
    let options = fast_image_resize::ResizeOptions::new().resize_alg(fast_image_resize::ResizeAlg::Convolution(fast_image_resize::FilterType::Lanczos3));
    fast_image_resize::Resizer::new().resize(&src, &mut dst, &options).map_err(|e| e.to_string())?;
    Ok(dst.into_vec())
}

/// The samples of `raster` resized to `out_w`×`out_h`: its own when it
/// already has that size, else the Lanczos3 resample.
pub open spec fn resized_data(raster: Raster, out_w: u32, out_h: u32) -> Seq<u8> {
    if raster.spec_width() == out_w && raster.spec_height() == out_h {
        raster.spec_data()
    } else {
        lanczos3_resampled(
            raster.spec_data(),
            raster.spec_width() as u32,
            raster.spec_height() as u32,
            out_w,
            out_h,
            raster.spec_channels() as u32,
        )
    }
}

/// Resamples a raster to `out_w`×`out_h` (Lanczos3); a raster already of
/// that size is returned as it is.
///
/// # Errors
///
/// [`PipelineError::Resize`] when the output buffer size would overflow,
/// or when the resampler refuses a buffer shorter than the raster's size.
pub fn resize(raster: Raster, out_w: u32, out_h: u32) -> (r: Result<Raster, PipelineError>)
    requires
        raster.spec_width() * raster.spec_height() * raster.spec_channels() <= usize::MAX,
    ensures
        raster.spec_width() == out_w && raster.spec_height() == out_h ==> r == Ok::<
            Raster,
            PipelineError,
        >(raster),
        !(raster.spec_width() == out_w && raster.spec_height() == out_h) && out_w * out_h
            * raster.spec_channels() > usize::MAX ==> (r matches Err(PipelineError::Resize(m))
            && m@ == "output buffer size overflow"@),
        !(raster.spec_width() == out_w && raster.spec_height() == out_h) && out_w * out_h
            * raster.spec_channels() <= usize::MAX ==> {
            &&& (r is Ok <==> raster.spec_data().len() >= raster.spec_width() * raster.spec_height()
                * raster.spec_channels())
            &&& (r is Err ==> r matches Err(PipelineError::Resize(_)))
        },
        raster.wf() && out_w * out_h * raster.spec_channels() <= usize::MAX ==> r is Ok,
        r matches Ok(x) ==> {
            &&& x.spec_channels() == raster.spec_channels()
            &&& x.spec_width() == out_w
            &&& x.spec_height() == out_h
            &&& (raster.wf() ==> x.wf())
            &&& x.spec_data() == resized_data(raster, out_w, out_h)
        },
{
    if raster.width() == out_w && raster.height() == out_h {
        return Ok(raster);
    }
    let c = raster.channels();
    assert((out_w as u128) * (out_h as u128) <= 0xFFFF_FFFFu128 * 0xFFFF_FFFFu128) by (nonlinear_arith)
        requires
            out_w <= 0xFFFF_FFFFu32,
            out_h <= 0xFFFF_FFFFu32,
    ;
    let area = (out_w as u128) * (out_h as u128);
    assert(area * (c as u128) <= 0xFFFF_FFFFu128 * 0xFFFF_FFFFu128 * 4) by (nonlinear_arith)
        requires
            area <= 0xFFFF_FFFFu128 * 0xFFFF_FFFFu128,
            c <= 4,
    ;
    if area * (c as u128) > usize::MAX as u128 {
        return Err(PipelineError::Resize("output buffer size overflow".to_string()));
    }
    let w = raster.width();
    let h = raster.height();
    match raster {
        Raster::Gray8 { data, .. } => match resample(data, w, h, out_w, out_h, c) {
            Ok(d) => Ok(Raster::Gray8 { width: out_w, height: out_h, data: d }),
            Err(m) => Err(PipelineError::Resize(m)),
        },
        Raster::GrayA8 { data, .. } => match resample(data, w, h, out_w, out_h, c) {
            Ok(d) => Ok(Raster::GrayA8 { width: out_w, height: out_h, data: d }),
            Err(m) => Err(PipelineError::Resize(m)),
        },
        Raster::Rgb8 { data, .. } => match resample(data, w, h, out_w, out_h, c) {
            Ok(d) => Ok(Raster::Rgb8 { width: out_w, height: out_h, data: d }),
            Err(m) => Err(PipelineError::Resize(m)),
        },
        Raster::Rgba8 { data, .. } => match resample(data, w, h, out_w, out_h, c) {
            Ok(d) => Ok(Raster::Rgba8 { width: out_w, height: out_h, data: d }),
            Err(m) => Err(PipelineError::Resize(m)),
        },
    }
}

/// How the pipeline turns the image for a normalized angle.
#[derive(Debug, Clone, Copy, PartialEq, Eq, Structural)]
pub enum RotationStep {
    /// No rotation (0°).
    Keep,
    /// A whole number of clockwise quarter turns (1 to 3).
    Quarters(u8),
    /// An arbitrary angle, resampled by the caller.
    Arbitrary(Decimal),
}

/// The step for `degrees`: none for 0, quarter turns for a multiple of 90,
/// else arbitrary.
pub open spec fn spec_rotation_step(degrees: Decimal) -> RotationStep {
    if degrees.num() == 0 {
        RotationStep::Keep
    } else if degrees.num() % (90 * pow10(degrees.scale_of())) == 0 {
        RotationStep::Quarters(((degrees.num() / (90 * pow10(degrees.scale_of()))) % 256) as u8)
    } else {
        RotationStep::Arbitrary(degrees)
    }
}

/// The step a normalized angle (below 360 degrees) takes: no turn exactly
/// for 0; for a non-zero multiple of 90 degrees, that many quarter turns
/// (one to three, `q` turns making `90 q` degrees); and for any other
/// angle, the arbitrary rotation of that very angle.
pub proof fn lemma_rotation_step_turns(degrees: Decimal)
    requires
        degrees.num() < 360 * pow10(degrees.scale_of()),
    ensures
        spec_rotation_step(degrees) is Keep <==> degrees.num() == 0,
        spec_rotation_step(degrees) matches RotationStep::Quarters(q) ==> 1 <= q <= 3
            && degrees.num() == q * 90 * pow10(degrees.scale_of()),
        degrees.num() != 0 && degrees.num() % (90 * pow10(degrees.scale_of())) == 0
            ==> spec_rotation_step(degrees) is Quarters,
        spec_rotation_step(degrees) matches RotationStep::Arbitrary(d) ==> d == degrees
            && degrees.num() % (90 * pow10(degrees.scale_of())) != 0,
{
    let n = degrees.num();
    let p = pow10(degrees.scale_of());
    crate::spelling::lemma_pow10_pos(degrees.scale_of());
    let unit = 90 * p;
    if n != 0 && n % unit == 0 {
        let q = n / unit;
        assert(q * unit == n) by (nonlinear_arith)
            requires
                q == n / unit,
                n % unit == 0,
                unit >= 1,
        ;
        assert(1 <= q <= 3) by (nonlinear_arith)
            requires
                q * unit == n,
                n != 0,
                n < 4 * unit,
                unit >= 1,
        ;
        assert(q * 90 * p == q * unit) by (nonlinear_arith)
            requires
                unit == 90 * p,
        ;
    }
}

/// The rotation step for a plan's (normalized) angle.
pub fn rotation_step(degrees: Decimal) -> (r: RotationStep)
    ensures
        r == spec_rotation_step(degrees),
{
    let digits = degrees.digits();
    let p = crate::grammar::pow10_u128(degrees.scale());
    if digits == 0 {
        return RotationStep::Keep;
    }
    let unit = 90 * p;
    if (digits as u128) % unit == 0 {
        let q = (digits as u128) / unit;
        RotationStep::Quarters((q % 256) as u8)
    } else {
        RotationStep::Arbitrary(degrees)
    }
}

/// The samples quality conversion produces from a layout's samples.
pub open spec fn quality_data(c: nat, d: Seq<u8>, q: Quality) -> Seq<u8> {
    match q {
        Quality::Gray => gray_data(c, d),
        Quality::Bitonal => bitonal_data(c, d),
        _ => d,
    }
}

/// The layout quality conversion produces.
pub open spec fn quality_channels(c: nat, q: Quality) -> nat {
    match q {
        Quality::Gray | Quality::Bitonal => gray_channels(c),
        _ => c,
    }
}

/// Samples after the quarter turns `k` (mod 4) of a `w`×`h` raster.
pub open spec fn turned_data(d: Seq<u8>, w: nat, h: nat, c: nat, k: nat) -> Seq<u8> {
    if k % 4 == 1 {
        rot90_data(d, w, h, c)
    } else if k % 4 == 2 {
        rot180_data(d, c)
    } else if k % 4 == 3 {
        rot180_data(rot90_data(d, w, h, c), c)
    } else {
        d
    }
}

/// Applies the quality, then the mirror, then the quarter turns of
/// `step` (an arbitrary angle is left to the caller).
pub fn finish(raster: Raster, quality: Quality, mirror: bool, step: RotationStep) -> (r: Raster)
    requires
        raster.wf(),
        mirror ==> raster.spec_width() > 0,
    ensures
        ({
            let c = quality_channels(raster.spec_channels(), quality);
            let g = quality_data(raster.spec_channels(), raster.spec_data(), quality);
            let m = if mirror {
                mirror_data(g, raster.spec_width(), c)
            } else {
                g
            };
            let k: nat = match step {
                RotationStep::Quarters(q) => q as nat,
                _ => 0,
            };
            &&& r.spec_channels() == c
            &&& r.spec_data() == turned_data(m, raster.spec_width(), raster.spec_height(), c, k)
            &&& (k % 2 == 1 ==> r.spec_width() == raster.spec_height() && r.spec_height()
                == raster.spec_width())
            &&& (k % 2 == 0 ==> r.spec_width() == raster.spec_width() && r.spec_height()
                == raster.spec_height())
        }),
{
    let ghost c0 = raster.spec_channels();
    let ghost n = raster.spec_width() * raster.spec_height();
    let ghost len = raster.spec_data().len();
    let r = match quality {
        Quality::Gray => raster.into_gray(),
        Quality::Bitonal => raster.into_bitonal(),
        _ => raster,
    };
    proof {
        if c0 == 3 && (quality == Quality::Gray || quality == Quality::Bitonal) {
            assert(len / 3 == n) by (nonlinear_arith)
                requires
                    len == n * 3,
            ;
        }
        if c0 == 4 && (quality == Quality::Gray || quality == Quality::Bitonal) {
            assert(2 * (len / 4) == n * 2) by (nonlinear_arith)
                requires
                    len == n * 4,
            ;
        }
    }
    proof {
        let d0 = raster.spec_data();
        let g = gray_data(c0, d0);
        if quality == Quality::Bitonal {
            if gray_channels(c0) == 1 {
                assert(g.map_values(|v: u8| crate::image::threshold(v)).len() == g.len());
            } else {
                assert(crate::image::bitonal_gray_alpha(g).len() == g.len());
            }
        }
    }
    assert(r.wf());
    let mut r = r;
    if mirror {
        r.mirror();
    }
    assert(r.spec_data().len() == r.spec_width() * r.spec_height() * r.spec_channels());
    match step {
        RotationStep::Quarters(q) => r.rotate_quarters(q),
        _ => r,
    }
}

/// The compute steps of a plan on a decoded crop: resample to the output
/// size, then quality, mirror and — when the angle is a quarter-turn
/// multiple — the rotation. An arbitrary angle is left for the caller,
/// before encoding.
///
/// # Errors
///
/// [`PipelineError::Resize`] when the resampled buffer's size would
/// overflow.
pub fn render(crop: Raster, plan: &Plan) -> (r: Result<Raster, PipelineError>)
    requires
        crop.wf(),
        plan.out_w >= 1,
        plan.out_h >= 1,
    ensures
        crop.spec_width() == plan.out_w && crop.spec_height() == plan.out_h ==> r is Ok,
        plan.out_w * plan.out_h * crop.spec_channels() <= usize::MAX ==> r is Ok,
        !(crop.spec_width() == plan.out_w && crop.spec_height() == plan.out_h) && plan.out_w
            * plan.out_h * crop.spec_channels() > usize::MAX ==> (r matches Err(
            PipelineError::Resize(m),
        ) && m@ == "output buffer size overflow"@),
        r matches Ok(x) ==> {
            let c = quality_channels(crop.spec_channels(), plan.quality);
            let k: nat = match spec_rotation_step(plan.degrees) {
                RotationStep::Quarters(q) => q as nat,
                _ => 0,
            };
            &&& x.spec_channels() == c
            &&& (k % 2 == 1 ==> x.spec_width() == plan.out_h && x.spec_height() == plan.out_w)
            &&& (k % 2 == 0 ==> x.spec_width() == plan.out_w && x.spec_height() == plan.out_h)
            &&& ({
                let d = resized_data(crop, plan.out_w, plan.out_h);
                let g = quality_data(crop.spec_channels(), d, plan.quality);
                let m = if plan.mirror {
                    mirror_data(g, plan.out_w as nat, c)
                } else {
                    g
                };
                x.spec_data() == turned_data(m, plan.out_w as nat, plan.out_h as nat, c, k)
            })
        },
{
    let n: usize = crop.data().len();
    assert(n == crop.spec_width() * crop.spec_height() * crop.spec_channels());
    let resized = resize(crop, plan.out_w, plan.out_h)?;
    let step = rotation_step(plan.degrees);
    Ok(finish(resized, plan.quality, plan.mirror, step))
}

} // verus!
