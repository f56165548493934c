//! Output encoders: the complete spec table.
//!
//! `jpg`/`png` are the level-2 core; `tif`, `gif`, `jp2` (lossless), `pdf`
//! (a single-image wrapper written here) and `webp` (lossless) complete it.
//! Formats without alpha flatten it over white first.

use vstd::prelude::*;
use crate::grammar::{Format, format_text, padded_text, push_padded, push_str};
use crate::image::{Raster, flat_channels, flat_data};
use crate::text::{chars_of, nat_text, pow10, push_char, push_u64};

verus! {

/// Encoder failure. Client-caused cases (dimensions beyond a format's
/// limits) are 400s; the rest are internal.
#[derive(Debug)]
#[non_exhaustive]
pub enum EncodeError {
    /// The output dimensions exceed what the format can represent (JPEG and
    /// GIF cap at 65535 per side).
    DimensionsBeyondFormat {
        /// The format whose ceiling was exceeded.
        format: Format,
        /// Requested output width.
        width: u32,
        /// Requested output height.
        height: u32,
    },
    /// Internal encoder failure.
    Internal(String),
}

/// The text of an encoder failure.
pub open spec fn encode_error_text(e: EncodeError) -> Seq<char> {
    match e {
        EncodeError::DimensionsBeyondFormat { format, width, height } => nat_text(width as nat)
            + seq!['×'] + nat_text(height as nat) + " exceeds what "@ + format_text(format)
            + " can represent"@,
        EncodeError::Internal(m) => "encoder failure: "@ + m@,
    }
}

impl EncodeError {
    /// The human-readable message.
    pub fn to_string(&self) -> (s: String)
        ensures
            s@ == encode_error_text(*self),
    {
        let mut s = String::new();
        match self {
            EncodeError::DimensionsBeyondFormat { format, width, height } => {
                push_u64(&mut s, *width as u64);
                push_char(&mut s, '×');
                push_u64(&mut s, *height as u64);
                push_str(&mut s, " exceeds what ");
                push_str(&mut s, format.as_str());
                push_str(&mut s, " can represent");
            },
            EncodeError::Internal(m) => {
                push_str(&mut s, "encoder failure: ");
                push_str(&mut s, m.as_str());
            },
        }
        assert(s@ =~= encode_error_text(*self));
        s
    }
}

/// JPEG quality used for all lossy output: fixed, so that a URL maps to one
/// stable byte stream.
pub const JPEG_QUALITY: u8 = 85;

/// The bytes `jpeg_encoder` produces at `quality` for `data` as a `w`×`h`
/// gray (`Luma`) or RGB image; `None` when it refuses.
pub uninterp spec fn jpeg_encoded(data: Seq<u8>, w: u16, h: u16, gray: bool, quality: u8) -> Option<Seq<u8>>;

/// The bytes the `png` encoder produces for `data` as a `w`×`h` 8-bit
/// image with `channels` samples per pixel; `None` when it refuses.
pub uninterp spec fn png_encoded(data: Seq<u8>, w: u32, h: u32, channels: u32) -> Option<Seq<u8>>;

/// The bytes the `tiff` encoder produces for `data` as an uncompressed
/// `w`×`h` 8-bit gray or RGB image; `None` when it refuses.
pub uninterp spec fn tiff_encoded(data: Seq<u8>, w: u32, h: u32, gray: bool) -> Option<Seq<u8>>;

/// The bytes the `gif` encoder produces for one `w`×`h` frame quantized from
/// the RGB samples `rgb`; `None` when it refuses.
pub uninterp spec fn gif_encoded(rgb: Seq<u8>, w: u16, h: u16) -> Option<Seq<u8>>;

/// The bytes `image_webp` produces for `data` as a lossless `w`×`h` 8-bit
/// image with `channels` samples per pixel; `None` when it refuses.
pub uninterp spec fn webp_encoded(data: Seq<u8>, w: u32, h: u32, channels: u32) -> Option<Seq<u8>>;

/// Encodes with `jpeg_encoder::Encoder::encode` at `quality` into a fresh
/// `Vec` (colour type `Luma` or `Rgb`). The result is named by
/// [`jpeg_encoded`]. Its source computes `w × h × samples` in `usize`
/// (sizes that overflow it are left out) and refuses a shorter buffer, then
/// refuses a zero side; writing into a `Vec` cannot fail, so it succeeds
/// on every other input.
#[verifier::external_body]
fn jpeg_encode(data: &[u8], w: u16, h: u16, gray: bool, quality: u8) -> (r: Result<Vec<u8>, String>)
    requires
        w * h * (if gray {
            1int
        } else {
            3int
        }) <= usize::MAX,
    ensures
        match r {
            Ok(b) => jpeg_encoded(data@, w, h, gray, quality) == Some(b@),
            Err(_) => jpeg_encoded(data@, w, h, gray, quality) is None,
        },
        r is Ok <==> (data@.len() >= w * h * (if gray {
            1int
        } else {
            3int
        }) && w > 0 && h > 0),
{
    let mut out = Vec::new();
    let encoder = jpeg_encoder::Encoder::new(&mut out, quality);
    let color = if gray { jpeg_encoder::ColorType::Luma } else { jpeg_encoder::ColorType::Rgb };
    encoder.encode(data, w, h, color).map_err(|e| e.to_string())?;
    Ok(out)
}

/// Encodes with `png::Encoder` (8-bit; grayscale, gray+alpha, RGB or RGBA
/// for 1 to 4 channels): `write_header`, then `write_image_data`, into a
/// fresh `Vec`. The result is named by [`png_encoded`]. Its source
/// refuses a zero side in `write_header`, and in `write_image_data` a
/// buffer whose length is not `w × h × channels` (computed in `usize`, so
/// sizes that overflow it are left out); writing into a `Vec` cannot fail,
/// so it succeeds on every other input.
#[verifier::external_body]
fn png_encode(data: &[u8], w: u32, h: u32, channels: u32) -> (r: Result<Vec<u8>, String>)
    requires
        1 <= channels <= 4,
        w * h * channels <= usize::MAX,
    ensures
        match r {
            Ok(b) => png_encoded(data@, w, h, channels) == Some(b@),
            Err(_) => png_encoded(data@, w, h, channels) is None,
        },
        r is Ok <==> (w > 0 && h > 0 && data@.len() == w * h * channels),
{
    let mut out = Vec::new();
    {
        let mut encoder = png::Encoder::new(&mut out, w, h);
        encoder.set_color(match channels {
            1 => png::ColorType::Grayscale,
            2 => png::ColorType::GrayscaleAlpha,
            3 => png::ColorType::Rgb,
            _ => png::ColorType::Rgba,
        });
        encoder.set_depth(png::BitDepth::Eight);
        let mut writer = encoder.write_header().map_err(|e| e.to_string())?;
        writer.write_image_data(data).map_err(|e| e.to_string())?;
    }
    Ok(out)
}

/// Encodes with `tiff::encoder::TiffEncoder::write_image` (colour type
/// `Gray8` or `RGB8`, uncompressed) into an in-memory cursor. The result is
/// named by [`tiff_encoded`]. Its source divides by the row's byte length
/// (so a zero width is left out) and refuses a buffer shorter than `w × h`
/// pixels' worth of single samples; a buffer between that and `w × h ×
/// samples` would be sliced past its end, so it is left out too. Writing
/// into a cursor cannot fail, and with at most 2^31 bytes of samples every
/// offset fits the classic TIFF's 32 bits; so it succeeds on a long enough
/// buffer with both sides non-zero. (A larger image is left unsaid.)
#[verifier::external_body]
fn tiff_encode(data: &[u8], w: u32, h: u32, gray: bool) -> (r: Result<Vec<u8>, String>)
    requires
        w > 0,
        data@.len() < w * h || data@.len() >= w * h * (if gray {
            1int
        } else {
            3int
        }),
    ensures
        match r {
            Ok(b) => tiff_encoded(data@, w, h, gray) == Some(b@),
            Err(_) => tiff_encoded(data@, w, h, gray) is None,
        },
        data@.len() < w * h ==> r is Err,
        h > 0 && data@.len() >= w * h * (if gray {
            1int
        } else {
            3int
        }) && w * h * 3 <= 0x8000_0000 ==> r is Ok,
{
    let mut cursor = std::io::Cursor::new(Vec::new());
    {
        let mut encoder = tiff::encoder::TiffEncoder::new(&mut cursor).map_err(|e| e.to_string())?;
        if gray {
            encoder.write_image::<tiff::encoder::colortype::Gray8>(w, h, data).map_err(|e| e.to_string())?;
        } else {
            encoder.write_image::<tiff::encoder::colortype::RGB8>(w, h, data).map_err(|e| e.to_string())?;
        }
    }
    Ok(cursor.into_inner())
}

/// Encodes one frame with `gif::Frame::from_rgb` (which panics unless the
/// buffer holds exactly `w × h × 3` samples) and `gif::Encoder` with no
/// global palette, into a fresh `Vec`. The result is named by
/// [`gif_encoded`]. Nothing is said of when it succeeds: `write_frame`
/// reserves its buffer with `try_reserve`, so it can fail for want of
/// memory.
#[verifier::external_body]
fn gif_encode(rgb: &[u8], w: u16, h: u16) -> (r: Result<Vec<u8>, String>)
    requires
        rgb@.len() == w * h * 3,
    ensures
        match r {
            Ok(b) => gif_encoded(rgb@, w, h) == Some(b@),
            Err(_) => gif_encoded(rgb@, w, h) is None,
        },
{
    let frame = gif::Frame::from_rgb(w, h, rgb);
    let mut out = Vec::new();
    {
        let mut encoder = gif::Encoder::new(&mut out, w, h, &[]).map_err(|e| e.to_string())?;
        encoder.write_frame(&frame).map_err(|e| e.to_string())?;
    }
    Ok(out)
}

/// Encodes losslessly with `image_webp::WebPEncoder::encode` (colour type
/// `L8`, `La8`, `Rgb8` or `Rgba8` for 1 to 4 channels), which panics unless
/// the buffer matches the dimensions. The result is named by
/// [`webp_encoded`]. Its source refuses a side of zero or beyond 16384;
/// writing into a `Vec` cannot fail, so it succeeds on every other input.
#[verifier::external_body]
fn webp_encode(data: &[u8], w: u32, h: u32, channels: u32) -> (r: Result<Vec<u8>, String>)
    requires
        1 <= channels <= 4,
        data@.len() == w * h * channels,
    ensures
        match r {
            Ok(b) => webp_encoded(data@, w, h, channels) == Some(b@),
            Err(_) => webp_encoded(data@, w, h, channels) is None,
        },
        r is Ok <==> (1 <= w <= 16384 && 1 <= h <= 16384),
{
    let mut out = Vec::new();
    let encoder = image_webp::WebPEncoder::new(std::io::Cursor::new(&mut out));
    let color = match channels {
        1 => image_webp::ColorType::L8,
        2 => image_webp::ColorType::La8,
        3 => image_webp::ColorType::Rgb8,
        _ => image_webp::ColorType::Rgba8,
    };
    encoder.encode(data, w, h, color).map_err(|e| e.to_string())?;
    Ok(out)
}

// ---------------------------------------------------------------------------
// What each format yields.

/// The outcome of an outside encoder named `o`: its bytes, or an internal
/// failure.
pub open spec fn outcome(o: Option<Seq<u8>>, r: Result<Vec<u8>, EncodeError>) -> bool {
    match o {
        Some(b) => r matches Ok(v) && v@ == b,
        None => r matches Err(EncodeError::Internal(_)),
    }
}

/// Whether `r` is the JPEG of a raster with `c` channels, `w`×`h`, samples
/// `d`: alpha flattened over white, sides within 65535, at the fixed
/// [`JPEG_QUALITY`] (85).
pub open spec fn jpeg_outcome(c: nat, w: u32, h: u32, d: Seq<u8>, r: Result<Vec<u8>, EncodeError>) -> bool {
    if w > 0xFFFF || h > 0xFFFF {
        r matches Err(EncodeError::DimensionsBeyondFormat { format, width, height }) && format
            == Format::Jpg && width == w && height == h
    } else {
        outcome(jpeg_encoded(flat_data(c, d), w as u16, h as u16, flat_channels(c) == 1, JPEG_QUALITY), r)
    }
}

/// The gray samples of a flattened raster repeated as RGB.
pub open spec fn gray_as_rgb(d: Seq<u8>) -> Seq<u8> {
    Seq::new(3 * d.len(), |k: int| d[k / 3])
}

/// Whether `r` is what `encode` yields for `format` on a raster with `c`
/// channels, `w`×`h`, samples `d`.
pub open spec fn encode_outcome(
    c: nat,
    w: u32,
    h: u32,
    d: Seq<u8>,
    format: Format,
    r: Result<Vec<u8>, EncodeError>,
) -> bool {
    match format {
        Format::Jpg => jpeg_outcome(c, w, h, d, r),
        Format::Png => outcome(png_encoded(d, w, h, c as u32), r),
        Format::Tif => outcome(tiff_encoded(flat_data(c, d), w, h, flat_channels(c) == 1), r),
        Format::Gif => if w > 0xFFFF || h > 0xFFFF {
            r matches Err(EncodeError::DimensionsBeyondFormat { format, width, height }) && format
                == Format::Gif && width == w && height == h
        } else if flat_channels(c) == 1 && 3 * (w * h) > usize::MAX {
            r matches Err(EncodeError::Internal(_))
        } else {
            outcome(
                gif_encoded(
                    if flat_channels(c) == 1 {
                        gray_as_rgb(flat_data(c, d))
                    } else {
                        flat_data(c, d)
                    },
                    w as u16,
                    h as u16,
                ),
                r,
            )
        },
        Format::Webp => outcome(webp_encoded(d, w, h, c as u32), r),
        Format::Jp2 => false,
        Format::Pdf => if w > 0xFFFF || h > 0xFFFF {
            r matches Err(EncodeError::DimensionsBeyondFormat { format, width, height }) && format
                == Format::Jpg && width == w && height == h
        } else {
            match jpeg_encoded(
                flat_data(c, d),
                w as u16,
                h as u16,
                flat_channels(c) == 1,
                JPEG_QUALITY,
            ) {
                Some(jpeg) => r matches Ok(v) && v@ == pdf_document(
                    w as nat,
                    h as nat,
                    flat_channels(c) == 1,
                    jpeg,
                ),
                None => r matches Err(EncodeError::Internal(_)),
            }
        },
    }
}

/// Whether the TIFF writer can take a raster without panicking: a non-zero
/// width (it divides by the row's length), and flattened samples that are
/// either fewer than one per pixel (refused) or all there (a length in
/// between would be sliced past its end).
pub open spec fn tiff_admits(raster: Raster) -> bool {
    let n = raster.spec_width() * raster.spec_height();
    let len = flat_data(raster.spec_channels(), raster.spec_data()).len();
    &&& raster.spec_width() > 0
    &&& (len < n || len >= n * flat_channels(raster.spec_channels()))
}

/// The sizes on which each format's encoder succeeds for a well-formed
/// raster: both sides non-zero, within 65535 for JPEG and PDF, within 16384
/// for WebP, and at most 2^31 bytes of samples for the classic TIFF. Of GIF
/// nothing is promised: its encoder reserves memory fallibly.
pub open spec fn encode_succeeds(w: nat, h: nat, format: Format) -> bool {
    &&& w >= 1
    &&& h >= 1
    &&& match format {
        Format::Jpg | Format::Pdf => w <= 0xFFFF && h <= 0xFFFF,
        Format::Png => true,
        Format::Tif => w * h * 3 <= 0x8000_0000,
        Format::Webp => w <= 16384 && h <= 16384,
        Format::Gif | Format::Jp2 => false,
    }
}

/// Encodes a raster in the requested format.
///
/// # Errors
///
/// See [`EncodeError`]; every format succeeds for any raster within the
/// format's own representational limits. JP2 output belongs to the JPEG
/// 2000 codec, which encodes it itself. The GIF and WebP encoders need a
/// buffer that matches the raster's dimensions; the others refuse one that
/// does not.
pub fn encode(raster: &Raster, format: Format) -> (r: Result<Vec<u8>, EncodeError>)
    requires
        format != Format::Jp2,
        format == Format::Gif || format == Format::Webp ==> raster.wf(),
        raster.spec_width() * raster.spec_height() * raster.spec_channels() <= usize::MAX,
        format == Format::Tif ==> tiff_admits(*raster),
    ensures
        encode_outcome(
            raster.spec_channels(),
            raster.spec_width() as u32,
            raster.spec_height() as u32,
            raster.spec_data(),
            format,
            r,
        ),
        raster.wf() && encode_succeeds(raster.spec_width(), raster.spec_height(), format)
            ==> r is Ok,
{
    match format {
        Format::Jpg => encode_jpeg(raster),
        Format::Png => encode_png(raster),
        Format::Tif => encode_tiff(raster),
        Format::Gif => encode_gif(raster),
        Format::Webp => encode_webp(raster),
        Format::Pdf => encode_pdf(raster),
        Format::Jp2 => {
            proof {
                assert(false);
            }
            Err(EncodeError::Internal(String::new()))
        },
    }
}

/// The outside encoder's outcome, mapped to this library's error.
fn internal(r: Result<Vec<u8>, String>) -> (out: Result<Vec<u8>, EncodeError>)
    ensures
        r matches Ok(v) ==> out matches Ok(w) && w@ == v@,
        r is Err ==> out matches Err(EncodeError::Internal(_)),
{
    match r {
        Ok(v) => Ok(v),
        Err(m) => Err(EncodeError::Internal(m)),
    }
}

/// A raster flattened over white, with its layout.
fn flattened(raster: &Raster) -> (r: Raster)
    ensures
        r.spec_channels() == flat_channels(raster.spec_channels()),
        r.spec_width() == raster.spec_width(),
        r.spec_height() == raster.spec_height(),
        r.spec_data() == flat_data(raster.spec_channels(), raster.spec_data()),
        raster.wf() ==> r.wf(),
{
    let r = raster.duplicate().flatten_over_white();
    proof {
        let c = raster.spec_channels();
        let n = raster.spec_width() * raster.spec_height();
        let len = raster.spec_data().len();
        if raster.wf() {
            assert(len == n * c);
            if c == 2 {
                assert(len / 2 == n) by (nonlinear_arith)
                    requires
                        len == n * 2,
                ;
            } else if c == 4 {
                assert(3 * (len / 4) == n * 3) by (nonlinear_arith)
                    requires
                        len == n * 4,
                ;
            }
            assert(r.wf());
        }
    }
    r
}

/// Encodes as a baseline JPEG, flattening any alpha over white.
fn encode_jpeg(raster: &Raster) -> (r: Result<Vec<u8>, EncodeError>)
    requires
        raster.spec_width() * raster.spec_height() * raster.spec_channels() <= usize::MAX,
    ensures
        jpeg_outcome(
            raster.spec_channels(),
            raster.spec_width() as u32,
            raster.spec_height() as u32,
            raster.spec_data(),
            r,
        ),
        raster.wf() && 1 <= raster.spec_width() <= 0xFFFF && 1 <= raster.spec_height() <= 0xFFFF
            ==> r is Ok,
{
    let flat = flattened(raster);
    let w = flat.width();
    let h = flat.height();
    if w > 0xFFFF || h > 0xFFFF {
        return Err(EncodeError::DimensionsBeyondFormat { format: Format::Jpg, width: w, height: h });
    }
    let gray = flat.channels() == 1;
    internal(jpeg_encode(flat.data(), w as u16, h as u16, gray, JPEG_QUALITY))
}

/// Encodes as a PNG, preserving alpha.
fn encode_png(raster: &Raster) -> (r: Result<Vec<u8>, EncodeError>)
    requires
        raster.spec_width() * raster.spec_height() * raster.spec_channels() <= usize::MAX,
    ensures
        raster.wf() && raster.spec_width() >= 1 && raster.spec_height() >= 1 ==> r is Ok,
        outcome(
            png_encoded(
                raster.spec_data(),
                raster.spec_width() as u32,
                raster.spec_height() as u32,
                raster.spec_channels() as u32,
            ),
            r,
        ),
{
    internal(png_encode(raster.data(), raster.width(), raster.height(), raster.channels()))
}

/// Encodes as an uncompressed TIFF, flattening alpha over white.
fn encode_tiff(raster: &Raster) -> (r: Result<Vec<u8>, EncodeError>)
    requires
        tiff_admits(*raster),
    ensures
        raster.wf() && raster.spec_height() >= 1 && raster.spec_width() * raster.spec_height() * 3
            <= 0x8000_0000 ==> r is Ok,
        outcome(
            tiff_encoded(
                flat_data(raster.spec_channels(), raster.spec_data()),
                raster.spec_width() as u32,
                raster.spec_height() as u32,
                flat_channels(raster.spec_channels()) == 1,
            ),
            r,
        ),
{
    let flat = flattened(raster);
    internal(tiff_encode(flat.data(), flat.width(), flat.height(), flat.channels() == 1))
}

/// Gray samples repeated as RGB.
fn gray_to_rgb(d: &[u8]) -> (r: Vec<u8>)
    requires
        3 * d@.len() <= usize::MAX,
    ensures
        r@ == gray_as_rgb(d@),
{
    let n = d.len();
    let mut out: Vec<u8> = Vec::with_capacity(3 * n);
    let mut i: usize = 0;
    while i < n
        invariant
            n == d@.len(),
            3 * n <= usize::MAX,
            i <= n,
            out@ == gray_as_rgb(d@).take(3 * i),
        decreases n - i,
    {
        let v = d[i];
        out.push(v);
        out.push(v);
        out.push(v);
        assert(out@ =~= gray_as_rgb(d@).take(3 * (i + 1)));
        i += 1;
    }
    assert(out@ =~= gray_as_rgb(d@));
    out
}

/// Encodes as a palettized GIF, flattening alpha over white.
fn encode_gif(raster: &Raster) -> (r: Result<Vec<u8>, EncodeError>)
    requires
        raster.wf(),
    ensures
        encode_outcome(
            raster.spec_channels(),
            raster.spec_width() as u32,
            raster.spec_height() as u32,
            raster.spec_data(),
            Format::Gif,
            r,
        ),
{
    let flat = flattened(raster);
    let w = flat.width();
    let h = flat.height();
    if w > 0xFFFF || h > 0xFFFF {
        return Err(EncodeError::DimensionsBeyondFormat { format: Format::Gif, width: w, height: h });
    }
    if flat.channels() == 1 {
        let d = flat.data();
        if d.len() > usize::MAX / 3 {
            return Err(EncodeError::Internal("allocation size overflow".to_string()));
        }
        let rgb = gray_to_rgb(d);
        assert(rgb@.len() == w * h * 3) by (nonlinear_arith)
            requires
                rgb@.len() == 3 * d@.len(),
                d@.len() == w * h * 1,
        ;
        internal(gif_encode(rgb.as_slice(), w as u16, h as u16))
    } else {
        internal(gif_encode(flat.data(), w as u16, h as u16))
    }
}

/// Encodes as a lossless WebP.
fn encode_webp(raster: &Raster) -> (r: Result<Vec<u8>, EncodeError>)
    requires
        raster.wf(),
    ensures
        1 <= raster.spec_width() <= 16384 && 1 <= raster.spec_height() <= 16384 ==> r is Ok,
        outcome(
            webp_encoded(
                raster.spec_data(),
                raster.spec_width() as u32,
                raster.spec_height() as u32,
                raster.spec_channels() as u32,
            ),
            r,
        ),
{
    internal(webp_encode(raster.data(), raster.width(), raster.height(), raster.channels()))
}

// ---------------------------------------------------------------------------
// PDF.

/// The bytes of an ASCII text.
pub open spec fn ascii(s: Seq<char>) -> Seq<u8> {
    s.map_values(|c: char| c as u8)
}

/// The bytes of `n` in decimal.
pub open spec fn num_bytes(n: nat) -> Seq<u8> {
    ascii(nat_text(n))
}

/// An xref offset: ten digits, zero-padded, or all its digits when longer.
pub open spec fn xref_offset_bytes(n: nat) -> Seq<u8> {
    if n < pow10(10) {
        ascii(padded_text(n, 10))
    } else {
        num_bytes(n)
    }
}

/// The page content stream: draw image `Im0` scaled to `w`×`h` points.
pub open spec fn pdf_content(w: nat, h: nat) -> Seq<u8> {
    ascii("q\n"@) + num_bytes(w) + ascii(" 0 0 "@) + num_bytes(h) + ascii(" 0 0 cm\n/Im0 Do\nQ\n"@)
}

/// The body of object `n` (1 to 5) of the single-page document.
pub open spec fn pdf_body(n: nat, w: nat, h: nat, gray: bool, jpeg: Seq<u8>) -> Seq<u8> {
    if n == 1 {
        ascii("<< /Type /Catalog /Pages 2 0 R >>"@)
    } else if n == 2 {
        ascii("<< /Type /Pages /Kids [3 0 R] /Count 1 >>"@)
    } else if n == 3 {
        ascii("<< /Type /Page /Parent 2 0 R /MediaBox [0 0 "@) + num_bytes(w) + ascii(" "@)
            + num_bytes(h) + ascii(
            "] /Resources << /XObject << /Im0 4 0 R >> >> /Contents 5 0 R >>"@,
        )
    } else if n == 4 {
        ascii("<< /Type /XObject /Subtype /Image /Width "@) + num_bytes(w) + ascii(" /Height "@)
            + num_bytes(h) + ascii(" /ColorSpace "@) + ascii(
            if gray {
                "/DeviceGray"@
            } else {
                "/DeviceRGB"@
            },
        ) + ascii(" /BitsPerComponent 8 /Filter /DCTDecode /Length "@) + num_bytes(jpeg.len())
            + ascii(" >>\nstream\n"@) + jpeg + ascii("\nendstream"@)
    } else {
        ascii("<< /Length "@) + num_bytes(pdf_content(w, h).len()) + ascii(" >>\nstream\n"@)
            + pdf_content(w, h) + ascii("endstream"@)
    }
}

/// The header line that opens object `n`.
pub open spec fn pdf_object_header(n: nat) -> Seq<u8> {
    num_bytes(n) + ascii(" 0 obj\n"@)
}

/// Object `n`, framed.
pub open spec fn pdf_object(n: nat, w: nat, h: nat, gray: bool, jpeg: Seq<u8>) -> Seq<u8> {
    pdf_object_header(n) + pdf_body(n, w, h, gray, jpeg) + ascii("\nendobj\n"@)
}

/// The file header: version line and the binary-marker comment.
pub open spec fn pdf_header() -> Seq<u8> {
    ascii("%PDF-1.4\n%"@) + seq![0xE2u8, 0xE3u8, 0xCFu8, 0xD3u8] + ascii("\n"@)
}

/// The document up to and including object `k`.
pub open spec fn pdf_prefix(k: nat, w: nat, h: nat, gray: bool, jpeg: Seq<u8>) -> Seq<u8>
    decreases k,
{
    if k == 0 {
        pdf_header()
    } else {
        pdf_prefix((k - 1) as nat, w, h, gray, jpeg) + pdf_object(k, w, h, gray, jpeg)
    }
}

/// The xref entries for objects `1..=k`, each the byte offset at which the
/// object starts.
pub open spec fn pdf_xref_entries(k: nat, w: nat, h: nat, gray: bool, jpeg: Seq<u8>) -> Seq<u8>
    decreases k,
{
    if k == 0 {
        Seq::empty()
    } else {
        pdf_xref_entries((k - 1) as nat, w, h, gray, jpeg) + xref_offset_bytes(
            pdf_prefix((k - 1) as nat, w, h, gray, jpeg).len(),
        ) + ascii(" 00000 n\n"@)
    }
}

/// A single-page PDF whose page is exactly a `w`×`h` JPEG at 72 dpi (one
/// point per pixel): five objects, the xref table pointing at each, and the
/// trailer pointing at the xref table.
pub open spec fn pdf_document(w: nat, h: nat, gray: bool, jpeg: Seq<u8>) -> Seq<u8> {
    let body = pdf_prefix(5, w, h, gray, jpeg);
    body + ascii("xref\n0 6\n0000000000 65535 f\n"@) + pdf_xref_entries(5, w, h, gray, jpeg)
        + ascii("trailer\n<< /Size 6 /Root 1 0 R >>\nstartxref\n"@) + num_bytes(body.len())
        + ascii("\n%%EOF\n"@)
}

/// Appends the bytes of an ASCII text.
fn push_ascii(out: &mut Vec<u8>, s: &str)
    ensures
        final(out)@ == old(out)@ + ascii(s@),
{
    let v = chars_of(s);
    let n = v.len();
    let mut i: usize = 0;
    while i < n
        invariant
            n == v@.len(),
            v@ == s@,
            i <= n,
            out@ == old(out)@ + ascii(s@.take(i as int)),
        decreases n - i,
    {
        let c = v[i];
        out.push(c as u8);
        assert(s@.take(i + 1) =~= s@.take(i as int).push(c));
        assert(ascii(s@.take(i + 1)) =~= ascii(s@.take(i as int)).push(c as u8));
        i += 1;
    }
    assert(s@.take(n as int) =~= s@);
}

/// Appends the bytes of a `String`.
fn push_string_bytes(out: &mut Vec<u8>, s: &String)
    ensures
        final(out)@ == old(out)@ + ascii(s@),
{
    push_ascii(out, s.as_str());
}

/// Appends `n` in decimal.
fn push_num(out: &mut Vec<u8>, n: u64)
    ensures
        final(out)@ == old(out)@ + num_bytes(n as nat),
{
    let mut s = String::new();
    push_u64(&mut s, n);
    assert(s@ =~= nat_text(n as nat));
    push_string_bytes(out, &s);
}

/// Appends an xref offset.
fn push_xref_offset(out: &mut Vec<u8>, n: u64)
    ensures
        final(out)@ == old(out)@ + xref_offset_bytes(n as nat),
{
    proof {
        reveal_with_fuel(pow10, 11);
    }
    if n < 10_000_000_000 {
        let mut s = String::new();
        push_padded(&mut s, n, 10);
        assert(s@ =~= padded_text(n as nat, 10));
        push_string_bytes(out, &s);
    } else {
        push_num(out, n);
    }
}

/// Appends the content stream.
fn push_content(out: &mut Vec<u8>, w: u32, h: u32)
    ensures
        final(out)@ == old(out)@ + pdf_content(w as nat, h as nat),
{
    push_ascii(out, "q\n");
    push_num(out, w as u64);
    push_ascii(out, " 0 0 ");
    push_num(out, h as u64);
    push_ascii(out, " 0 0 cm\n/Im0 Do\nQ\n");
    assert(out@ =~= old(out)@ + pdf_content(w as nat, h as nat));
}

/// Appends the body of the page object.
fn push_page_body(out: &mut Vec<u8>, w: u32, h: u32)
    ensures
        final(out)@ == old(out)@ + pdf_body(3, w as nat, h as nat, false, Seq::empty()),
{
    push_ascii(out, "<< /Type /Page /Parent 2 0 R /MediaBox [0 0 ");
    push_num(out, w as u64);
    push_ascii(out, " ");
    push_num(out, h as u64);
    push_ascii(out, "] /Resources << /XObject << /Im0 4 0 R >> >> /Contents 5 0 R >>");
    assert(out@ =~= old(out)@ + pdf_body(3, w as nat, h as nat, false, Seq::empty()));
}

/// Appends the body of the image object.
fn push_image_body(out: &mut Vec<u8>, w: u32, h: u32, gray: bool, jpeg: &Vec<u8>)
    ensures
        final(out)@ == old(out)@ + pdf_body(4, w as nat, h as nat, gray, jpeg@),
{
    push_ascii(out, "<< /Type /XObject /Subtype /Image /Width ");
    push_num(out, w as u64);
    push_ascii(out, " /Height ");
    push_num(out, h as u64);
    push_ascii(out, " /ColorSpace ");
    push_ascii(out, if gray { "/DeviceGray" } else { "/DeviceRGB" });
    push_ascii(out, " /BitsPerComponent 8 /Filter /DCTDecode /Length ");
    push_num(out, jpeg.len() as u64);
    push_ascii(out, " >>\nstream\n");
    out.extend_from_slice(jpeg.as_slice());
    push_ascii(out, "\nendstream");
    assert(out@ =~= old(out)@ + pdf_body(4, w as nat, h as nat, gray, jpeg@));
}

/// Appends the body of the content-stream object.
fn push_content_body(out: &mut Vec<u8>, w: u32, h: u32)
    ensures
        final(out)@ == old(out)@ + pdf_body(5, w as nat, h as nat, false, Seq::empty()),
{
    let mut content: Vec<u8> = Vec::new();
    push_content(&mut content, w, h);
    assert(content@ =~= pdf_content(w as nat, h as nat));
    push_ascii(out, "<< /Length ");
    push_num(out, content.len() as u64);
    push_ascii(out, " >>\nstream\n");
    out.extend_from_slice(content.as_slice());
    push_ascii(out, "endstream");
    assert(out@ =~= old(out)@ + pdf_body(5, w as nat, h as nat, false, Seq::empty()));
}

/// Appends the body of object `n`.
fn push_body(out: &mut Vec<u8>, n: u64, w: u32, h: u32, gray: bool, jpeg: &Vec<u8>)
    requires
        1 <= n <= 5,
    ensures
        final(out)@ == old(out)@ + pdf_body(n as nat, w as nat, h as nat, gray, jpeg@),
{
    if n == 1 {
        push_ascii(out, "<< /Type /Catalog /Pages 2 0 R >>");
    } else if n == 2 {
        push_ascii(out, "<< /Type /Pages /Kids [3 0 R] /Count 1 >>");
    } else if n == 3 {
        push_page_body(out, w, h);
    } else if n == 4 {
        push_image_body(out, w, h, gray, jpeg);
    } else {
        push_content_body(out, w, h);
    }
}

/// Encodes as a single-page PDF wrapping a JPEG of the raster (alpha
/// flattened over white). The page is exactly the image, at 72 dpi, so one
/// pixel is one point.
fn encode_pdf(raster: &Raster) -> (r: Result<Vec<u8>, EncodeError>)
    requires
        raster.spec_width() * raster.spec_height() * raster.spec_channels() <= usize::MAX,
    ensures
        raster.wf() && 1 <= raster.spec_width() <= 0xFFFF && 1 <= raster.spec_height() <= 0xFFFF
            ==> r is Ok,
        encode_outcome(
            raster.spec_channels(),
            raster.spec_width() as u32,
            raster.spec_height() as u32,
            raster.spec_data(),
            Format::Pdf,
            r,
        ),
{
    let flat = flattened(raster);
    let jpeg = match encode_jpeg(&flat) {
        Ok(j) => j,
        Err(e) => {
            return Err(e);
        },
    };
    let w = flat.width();
    let h = flat.height();
    let gray = flat.channels() == 1;
    Ok(pdf_from_jpeg(&jpeg, w, h, gray))
}

/// The single-page PDF document that embeds a `w`×`h` JPEG (`gray` for a
/// one-channel JPEG) through `DCTDecode`, the page sized one point per
/// pixel, with its cross-reference table.
pub fn pdf_from_jpeg(jpeg: &Vec<u8>, w: u32, h: u32, gray: bool) -> (pdf: Vec<u8>)
    ensures
        pdf@ == pdf_document(w as nat, h as nat, gray, jpeg@),
{
    let ghost doc_w = w as nat;
    let ghost doc_h = h as nat;
    let mut pdf: Vec<u8> = Vec::new();
    push_ascii(&mut pdf, "%PDF-1.4\n%");
    pdf.push(0xE2u8);
    pdf.push(0xE3u8);
    pdf.push(0xCFu8);
    pdf.push(0xD3u8);
    push_ascii(&mut pdf, "\n");
    assert(pdf@ =~= pdf_prefix(0, doc_w, doc_h, gray, jpeg@));
    let mut offsets: Vec<u64> = Vec::new();
    let mut n: u64 = 1;
    while n <= 5
        invariant
            1 <= n <= 6,
            pdf@ == pdf_prefix((n - 1) as nat, doc_w, doc_h, gray, jpeg@),
            offsets@.len() == n - 1,
            forall|k: int|
                0 <= k < n - 1 ==> offsets@[k] == pdf_prefix(k as nat, doc_w, doc_h, gray, jpeg@).len(),
            doc_w == w,
            doc_h == h,
        decreases 6 - n,
    {
        offsets.push(pdf.len() as u64);
        push_num(&mut pdf, n);
        push_ascii(&mut pdf, " 0 obj\n");
        push_body(&mut pdf, n, w, h, gray, &jpeg);
        push_ascii(&mut pdf, "\nendobj\n");
        assert(pdf@ =~= pdf_prefix(n as nat, doc_w, doc_h, gray, jpeg@));
        n += 1;
    }
    let xref_offset = pdf.len() as u64;
    push_ascii(&mut pdf, "xref\n0 6\n0000000000 65535 f\n");
    let ghost before_entries = pdf@;
    let mut k: usize = 0;
    while k < 5
        invariant
            k <= 5,
            offsets@.len() == 5,
            forall|j: int|
                0 <= j < 5 ==> offsets@[j] == pdf_prefix(j as nat, doc_w, doc_h, gray, jpeg@).len(),
            pdf@ == before_entries + pdf_xref_entries(k as nat, doc_w, doc_h, gray, jpeg@),
        decreases 5 - k,
    {
        push_xref_offset(&mut pdf, offsets[k]);
        push_ascii(&mut pdf, " 00000 n\n");
        assert(pdf@ =~= before_entries + pdf_xref_entries((k + 1) as nat, doc_w, doc_h, gray, jpeg@));
        k += 1;
    }
    push_ascii(&mut pdf, "trailer\n<< /Size 6 /Root 1 0 R >>\nstartxref\n");
    push_num(&mut pdf, xref_offset);
    push_ascii(&mut pdf, "\n%%EOF\n");
    assert(pdf@ =~= pdf_document(doc_w, doc_h, gray, jpeg@));
    pdf
}

} // verus!
