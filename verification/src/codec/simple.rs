//! Plain JPEG and PNG masters: decoded whole (they have no pyramid or tiles
//! to exploit), served by cropping the resident raster.

use vstd::prelude::*;
use crate::codec::{CodecError, guard_resident_pixels, MAX_RESIDENT_PIXELS};
use crate::eval::CropRect;
use crate::grammar::push_str;
use crate::image::{
    CopyRect, Raster, blit_data, flat_of_gray_alpha, flat_of_rgba, gray_alpha_to_flat, rgba_to_flat,
};
use crate::info::{ImageDescription, SizeEntry};
use crate::text::{nat_text, push_char, push_u64};
use zune_jpeg::zune_core::colorspace::ColorSpace;
use zune_jpeg::zune_core::options::DecoderOptions;

verus! {

/// The colour layouts a PNG frame can decode to.
#[derive(Debug, Clone, Copy, PartialEq, Eq, Structural)]
pub enum PngColor {
    /// One gray sample.
    Grayscale,
    /// Red, green, blue.
    Rgb,
    /// A palette index.
    Indexed,
    /// Gray, then alpha.
    GrayscaleAlpha,
    /// Red, green, blue, then alpha.
    Rgba,
}

/// What `zune_jpeg` reads from a JPEG's headers: `None` when they do not
/// parse, else the declared dimensions.
pub uninterp spec fn jpeg_header_of(bytes: Seq<u8>) -> Option<Option<(usize, usize)>>;

/// Whether `zune_jpeg` decodes `bytes` to RGB without error.
pub uninterp spec fn jpeg_decodes(bytes: Seq<u8>) -> bool;

/// What the `png` crate reads from a PNG's header: `None` when it does not
/// parse, else width, height and the output buffer size it asks for.
pub uninterp spec fn png_header_of(bytes: Seq<u8>) -> Option<(u32, u32, Option<usize>)>;

/// What the `png` crate decodes from a PNG's first frame into a zeroed
/// buffer of `buf_len` bytes: `None` on failure, else the buffer, the frame
/// width and height, the colour layout, the bit depth and the frame's byte
/// size.
pub uninterp spec fn png_frame_of(bytes: Seq<u8>, buf_len: usize) -> Option<
    (Seq<u8>, u32, u32, PngColor, u8, usize),
>;

/// Reads a JPEG's headers with `zune_jpeg::JpegDecoder::decode_headers`
/// (output colour space RGB) and returns `dimensions()`. The result is
/// named by [`jpeg_header_of`]; on success the sides fit in 16 bits, as the
/// decoder stores them that way.
#[verifier::external_body]
fn jpeg_read_headers(bytes: &[u8]) -> (r: Result<Option<(usize, usize)>, String>)
    ensures
        match r {
            Ok(d) => jpeg_header_of(bytes@) == Some(d) && (d matches Some((w, h)) ==> w <= 0xFFFF
                && h <= 0xFFFF),
            Err(_) => jpeg_header_of(bytes@) is None,
        },
{
    let options = DecoderOptions::default().jpeg_set_out_colorspace(ColorSpace::RGB);
    let mut decoder = zune_jpeg::JpegDecoder::new_with_options(
        zune_jpeg::zune_core::bytestream::ZCursor::new(bytes),
        options,
    );
    decoder.decode_headers().map_err(|e| e.to_string())?;
    Ok(decoder.dimensions())
}

/// Decodes a JPEG to interleaved RGB with `zune_jpeg::JpegDecoder::decode`
/// and returns the pixels with `dimensions()`. Whether it succeeds is
/// named by [`jpeg_decodes`]. Of a success it states what
/// the decoder's source shows: `decode` reads the headers as
/// `decode_headers` does (so the dimensions are those [`jpeg_header_of`]
/// names, present and within 16 bits) and fills a buffer of exactly
/// `width × height × 3` samples. The sample values themselves are left
/// unsaid (the inverse DCT may take machine-specific paths). The buffer
/// size is computed with an `unwrap` that fails when it overflows `usize`,
/// so the sizes that would are left out.
#[verifier::external_body]
fn jpeg_decode_rgb(bytes: &[u8]) -> (r: Result<(Vec<u8>, Option<(usize, usize)>), String>)
    requires
        jpeg_header_of(bytes@) matches Some(Some((w, h))) ==> w * h * 3 <= usize::MAX,
    ensures
        r is Ok <==> jpeg_decodes(bytes@),
        r matches Ok((p, d)) ==> jpeg_header_of(bytes@) == Some(d) && (d matches Some((w, h))
            && w <= 0xFFFF && h <= 0xFFFF && p@.len() == w * h * 3),
{
    let options = DecoderOptions::default().jpeg_set_out_colorspace(ColorSpace::RGB);
    let mut decoder = zune_jpeg::JpegDecoder::new_with_options(
        zune_jpeg::zune_core::bytestream::ZCursor::new(bytes),
        options,
    );
    let pixels = decoder.decode().map_err(|e| e.to_string())?;
    Ok((pixels, decoder.dimensions()))
}

/// Reads a PNG's header with `png::Decoder::read_info` and returns the
/// header's width and height with the reader's `output_buffer_size()`. The
/// result is named by [`png_header_of`].
#[verifier::external_body]
fn png_read_header(bytes: &[u8]) -> (r: Result<(u32, u32, Option<usize>), String>)
    ensures
        match r {
            Ok(h) => png_header_of(bytes@) == Some(h),
            Err(_) => png_header_of(bytes@) is None,
        },
{
    let decoder = png::Decoder::new(std::io::Cursor::new(bytes));
    let reader = decoder.read_info().map_err(|e| e.to_string())?;
    let info = reader.info();
    Ok((info.width, info.height, reader.output_buffer_size()))
}

/// Decodes a PNG's first frame with `png::Reader::next_frame` into a zeroed
/// buffer of `buf_len` bytes and returns the buffer with the frame's
/// width, height, colour type, bit depth and `buffer_size()`. The result
/// is named by [`png_frame_of`]; the buffer keeps its length.
#[verifier::external_body]
fn png_decode_frame(bytes: &[u8], buf_len: usize) -> (r: Result<
    (Vec<u8>, u32, u32, PngColor, u8, usize),
    String,
>)
    ensures
        match r {
            Ok((p, w, h, c, d, n)) => png_frame_of(bytes@, buf_len) == Some((p@, w, h, c, d, n))
                && p@.len() == buf_len,
            Err(_) => png_frame_of(bytes@, buf_len) is None,
        },
{
    let decoder = png::Decoder::new(std::io::Cursor::new(bytes));
    let mut reader = decoder.read_info().map_err(|e| e.to_string())?;
    let mut buf = vec![0_u8; buf_len];
    let info = reader.next_frame(&mut buf).map_err(|e| e.to_string())?;
    let color = match info.color_type {
        png::ColorType::Grayscale => PngColor::Grayscale,
        png::ColorType::Rgb => PngColor::Rgb,
        png::ColorType::Indexed => PngColor::Indexed,
        png::ColorType::GrayscaleAlpha => PngColor::GrayscaleAlpha,
        png::ColorType::Rgba => PngColor::Rgba,
    };
    Ok((buf, info.width, info.height, color, info.bit_depth as u8, info.buffer_size()))
}

/// A fully decoded single-resolution master.
#[derive(Debug)]
pub struct SimpleMaster {
    raster: Raster,
}

/// The samples a decoded PNG frame becomes, with their channel count:
/// 8-bit gray (1) and RGB (3) as they are, 8-bit RGBA composited over white
/// (3); `None` for any other layout.
pub open spec fn png_samples(data: Seq<u8>, color: PngColor, depth: u8) -> Option<(nat, Seq<u8>)> {
    if depth != 8 {
        None
    } else {
        match color {
            PngColor::Grayscale => Some((1, data)),
            PngColor::Rgb => Some((3, data)),
            PngColor::GrayscaleAlpha => Some((1, flat_of_gray_alpha(data))),
            PngColor::Rgba => Some((3, flat_of_rgba(data))),
            _ => None,
        }
    }
}

impl SimpleMaster {
    /// The resident raster.
    pub closed spec fn spec_raster(self) -> Raster {
        self.raster
    }

    /// Wraps an already-decoded raster.
    pub fn from_raster(raster: Raster) -> (m: SimpleMaster)
        ensures
            m.spec_raster() == raster,
    {
        SimpleMaster { raster }
    }

    /// Decodes a plain JPEG master to RGB (CMYK and YCCK included, through
    /// the decoder's conversion). The declared dimensions must clear the
    /// resident-pixel ceiling before any pixel buffer is allocated.
    ///
    /// # Errors
    ///
    /// [`CodecError::Corrupt`] when the stream does not decode;
    /// [`CodecError::LimitExceeded`] over the ceiling.
    pub fn from_jpeg(bytes: &[u8]) -> (r: Result<SimpleMaster, CodecError>)
        ensures
            jpeg_header_of(bytes@) is None ==> r matches Err(CodecError::Corrupt(_)),
            jpeg_header_of(bytes@) matches Some(Some((w, h))) && w * h > MAX_RESIDENT_PIXELS
                ==> r matches Err(CodecError::LimitExceeded(_)),
            jpeg_header_of(bytes@) matches Some(None) ==> r is Err,
            jpeg_header_of(bytes@) matches Some(Some((w, h))) && w * h <= MAX_RESIDENT_PIXELS ==> (
            r is Ok <==> jpeg_decodes(bytes@)),
            jpeg_header_of(bytes@) is Some && !jpeg_decodes(bytes@) ==> r matches Err(
                CodecError::Corrupt(_),
            ) || r matches Err(CodecError::LimitExceeded(_)),
            r matches Ok(m) ==> m.spec_raster() is Rgb8 && m.spec_raster().wf() && (
            jpeg_header_of(bytes@) matches Some(Some((w, h))) && w * h <= MAX_RESIDENT_PIXELS
                && m.spec_raster().spec_width() == w && m.spec_raster().spec_height() == h),
    {
        let dims = match jpeg_read_headers(bytes) {
            Ok(d) => d,
            Err(e) => {
                return Err(CodecError::Corrupt(prefixed("JPEG headers: ", e)));
            },
        };
        if let Some((w, h)) = dims {
            guard_resident_pixels(w as u32, h as u32)?;
        }
        let (pixels, dims) = match jpeg_decode_rgb(bytes) {
            Ok(x) => x,
            Err(e) => {
                return Err(CodecError::Corrupt(prefixed("JPEG decode: ", e)));
            },
        };
        SimpleMaster::from_rgb_pixels(pixels, dims)
    }

    /// The master a decoded JPEG becomes: its interleaved RGB samples at the
    /// dimensions the decoder reports.
    ///
    /// # Errors
    ///
    /// [`CodecError::Corrupt`] when the decoder reports no dimensions.
    pub fn from_rgb_pixels(pixels: Vec<u8>, dims: Option<(usize, usize)>) -> (r: Result<
        SimpleMaster,
        CodecError,
    >)
        ensures
            match dims {
                None => r matches Err(CodecError::Corrupt(m)) && m@ == "JPEG has no dimensions"@,
                Some((w, h)) => r matches Ok(m) && m.spec_raster() == (Raster::Rgb8 {
                    width: w as u32,
                    height: h as u32,
                    data: pixels,
                }),
            },
    {
        let (w, h) = match dims {
            Some(d) => d,
            None => {
                return Err(CodecError::Corrupt("JPEG has no dimensions".to_string()));
            },
        };
        Ok(SimpleMaster { raster: Raster::Rgb8 { width: w as u32, height: h as u32, data: pixels } })
    }

    /// Decodes a PNG master: 8-bit gray and RGB; 8-bit gray+alpha and RGBA
    /// composited over white. The declared dimensions must clear the resident-pixel ceiling
    /// before the frame buffer is allocated.
    ///
    /// # Errors
    ///
    /// [`CodecError::Corrupt`] when the stream does not decode;
    /// [`CodecError::LimitExceeded`] over the ceiling;
    /// [`CodecError::Unsupported`] for other layouts.
    pub fn from_png(bytes: &[u8]) -> (r: Result<SimpleMaster, CodecError>)
        ensures
            match png_header_of(bytes@) {
                None => r matches Err(CodecError::Corrupt(_)),
                Some((w, h, size)) => if w * h > MAX_RESIDENT_PIXELS {
                    r matches Err(CodecError::LimitExceeded(_))
                } else {
                    match size {
                        None => r matches Err(CodecError::Corrupt(m)) && m@ == "PNG size overflow"@,
                        Some(n) => match png_frame_of(bytes@, n) {
                            None => r matches Err(CodecError::Corrupt(_)),
                            Some((p, fw, fh, c, d, bs)) => match png_samples(
                                p.take(if bs <= p.len() {
                                    bs as int
                                } else {
                                    p.len() as int
                                }),
                                c,
                                d,
                            ) {
                                None => r matches Err(CodecError::Unsupported(_)),
                                Some((channels, samples)) => r matches Ok(m)
                                    && m.spec_raster().spec_width() == fw
                                    && m.spec_raster().spec_height() == fh
                                    && m.spec_raster().spec_channels() == channels
                                    && m.spec_raster().spec_data() == samples,
                            },
                        },
                    }
                },
            },
    {
        let (w, h, size) = match png_read_header(bytes) {
            Ok(x) => x,
            Err(e) => {
                return Err(CodecError::Corrupt(prefixed("PNG decode: ", e)));
            },
        };
        guard_resident_pixels(w, h)?;
        let n = match size {
            Some(n) => n,
            None => {
                return Err(CodecError::Corrupt("PNG size overflow".to_string()));
            },
        };
        let (buf, fw, fh, color, depth, bs) = match png_decode_frame(bytes, n) {
            Ok(x) => x,
            Err(e) => {
                return Err(CodecError::Corrupt(prefixed("PNG decode: ", e)));
            },
        };
        SimpleMaster::from_png_frame(buf, fw, fh, color, depth, bs)
    }

    /// The master a decoded PNG frame becomes: the first `frame_size` bytes
    /// of the buffer as 8-bit gray or RGB, or 8-bit gray+alpha or RGBA
    /// composited over white.
    ///
    /// # Errors
    ///
    /// [`CodecError::Unsupported`] for any other layout.
    pub fn from_png_frame(
        buf: Vec<u8>,
        width: u32,
        height: u32,
        color: PngColor,
        depth: u8,
        frame_size: usize,
    ) -> (r: Result<SimpleMaster, CodecError>)
        ensures
            match png_samples(
                buf@.take(
                    if frame_size <= buf@.len() {
                        frame_size as int
                    } else {
                        buf@.len() as int
                    },
                ),
                color,
                depth,
            ) {
                None => r matches Err(CodecError::Unsupported(m)) && m@ == png_layout(color, depth),
                Some((channels, samples)) => r matches Ok(m) && m.spec_raster().spec_width()
                    == width && m.spec_raster().spec_height() == height
                    && m.spec_raster().spec_channels() == channels && m.spec_raster().spec_data()
                    == samples,
            },
    {
        let mut buf = buf;
        buf.truncate(frame_size);
        if depth != 8 {
            return Err(CodecError::Unsupported(png_layout_text(color, depth)));
        }
        let raster = match color {
            PngColor::Grayscale => Raster::Gray8 { width, height, data: buf },
            PngColor::Rgb => Raster::Rgb8 { width, height, data: buf },
            PngColor::GrayscaleAlpha => Raster::Gray8 { width, height, data: gray_alpha_to_flat(&buf) },
            PngColor::Rgba => Raster::Rgb8 { width, height, data: rgba_to_flat(&buf) },
            _ => {
                return Err(CodecError::Unsupported(png_layout_text(color, depth)));
            },
        };
        Ok(SimpleMaster { raster })
    }

    /// The resident raster.
    pub fn raster(&self) -> (r: &Raster)
        ensures
            *r == self.spec_raster(),
    {
        &self.raster
    }

    /// Full-resolution dimensions.
    pub fn dimensions(&self) -> (r: (u32, u32))
        ensures
            r == (self.spec_raster().spec_width() as u32, self.spec_raster().spec_height() as u32),
    {
        (self.raster.width(), self.raster.height())
    }

    /// No pyramid, no tiles: `sizes` lists the one complete size.
    pub fn describe(&self) -> (d: ImageDescription)
        ensures
            d.width == self.spec_raster().spec_width(),
            d.height == self.spec_raster().spec_height(),
            d.tiles@.len() == 0,
            d.sizes@ == seq![
                SizeEntry {
                    width: self.spec_raster().spec_width() as u32,
                    height: self.spec_raster().spec_height() as u32,
                },
            ],
    {
        let w = self.raster.width();
        let h = self.raster.height();
        let d = ImageDescription {
            width: w,
            height: h,
            tiles: Vec::new(),
            sizes: vec![SizeEntry { width: w, height: h }],
        };
        assert(d.sizes@ =~= seq![SizeEntry { width: w, height: h }]);
        d
    }

    /// Serving advice: an untiled master above four million pixels decodes
    /// whole on every request.
    pub fn advisories(&self) -> (v: Vec<String>)
        ensures
            self.spec_raster().spec_width() * self.spec_raster().spec_height() > 4_000_000 ==> v@.len()
                == 1 && v@[0]@ == untiled_advice(
                self.spec_raster().spec_width() as u32,
                self.spec_raster().spec_height() as u32,
            ),
            self.spec_raster().spec_width() * self.spec_raster().spec_height() <= 4_000_000
                ==> v@.len() == 0,
    {
        let w = self.raster.width();
        let h = self.raster.height();
        assert((w as u64) * (h as u64) <= 0xFFFF_FFFFu64 * 0xFFFF_FFFFu64) by (nonlinear_arith)
            requires
                w <= 0xFFFF_FFFFu32,
                h <= 0xFFFF_FFFFu32,
        ;
        let mut v: Vec<String> = Vec::new();
        if (w as u64) * (h as u64) > 4_000_000 {
            let mut m = String::new();
            push_str(&mut m, "untiled ");
            push_u64(&mut m, w as u64);
            push_char(&mut m, '×');
            push_u64(&mut m, h as u64);
            push_str(
                &mut m,
                " master decodes whole on every request; convert to a pyramidal format for fast deep zoom: vips tiffsave in out.tif --tile --pyramid --compression jpeg",
            );
            assert(m@ =~= untiled_advice(w, h));
            v.push(m);
        }
        v
    }

    /// Copies `crop` out of the resident raster.
    ///
    /// # Errors
    ///
    /// [`CodecError::Raster`] when the crop does not lie inside the raster
    /// or its buffer size overflows.
    pub fn decode_crop(&self, crop: CropRect) -> (r: Result<Raster, CodecError>)
        requires
            self.spec_raster().wf(),
        ensures
            r is Ok <==> crop.w * crop.h * self.spec_raster().spec_channels() <= usize::MAX
                && crop.x + crop.w <= self.spec_raster().spec_width() && crop.y + crop.h
                <= self.spec_raster().spec_height(),
            r matches Ok(out) ==> {
                &&& out.spec_channels() == self.spec_raster().spec_channels()
                &&& out.spec_width() == crop.w
                &&& out.spec_height() == crop.h
                &&& out.wf()
                &&& out.spec_data() == blit_data(
                    Seq::new(
                        (crop.w * crop.h * self.spec_raster().spec_channels()) as nat,
                        |i: int| 0u8,
                    ),
                    self.spec_raster().spec_data(),
                    crop.w as int,
                    self.spec_raster().spec_width() as int,
                    self.spec_raster().spec_channels() as int,
                    crop.x as int,
                    crop.y as int,
                    crop.w as int,
                    crop.h as int,
                    0,
                    0,
                )
            },
    {
        let mut out = match self.raster.zeroed_like(crop.w, crop.h) {
            Ok(o) => o,
            Err(e) => {
                return Err(CodecError::Raster(e));
            },
        };
        match out.blit(&self.raster, CopyRect { src_x: crop.x, src_y: crop.y, width: crop.w, height: crop.h }, 0, 0) {
            Ok(()) => Ok(out),
            Err(e) => Err(CodecError::Raster(e)),
        }
    }
}

/// The advice for an untiled `w`×`h` master.
pub open spec fn untiled_advice(w: u32, h: u32) -> Seq<char> {
    "untiled "@ + nat_text(w as nat) + seq!['×'] + nat_text(h as nat)
        + " master decodes whole on every request; convert to a pyramidal format for fast deep zoom: vips tiffsave in out.tif --tile --pyramid --compression jpeg"@
}

/// `prefix` followed by `rest`.
fn prefixed(prefix: &str, rest: String) -> (s: String)
    ensures
        s@ == prefix@ + rest@,
{
    let mut s = String::new();
    push_str(&mut s, prefix);
    push_str(&mut s, rest.as_str());
    s
}

/// The name of a PNG colour layout.
pub open spec fn png_color_name(color: PngColor) -> Seq<char> {
    match color {
        PngColor::Grayscale => "Grayscale"@,
        PngColor::Rgb => "Rgb"@,
        PngColor::Indexed => "Indexed"@,
        PngColor::GrayscaleAlpha => "GrayscaleAlpha"@,
        PngColor::Rgba => "Rgba"@,
    }
}

/// The name of a PNG bit depth (`One`, `Two`, `Four`, `Eight`,
/// `Sixteen`); a depth the format does not have is spelled as its number.
pub open spec fn png_depth_name(depth: u8) -> Seq<char> {
    if depth == 1 {
        "One"@
    } else if depth == 2 {
        "Two"@
    } else if depth == 4 {
        "Four"@
    } else if depth == 8 {
        "Eight"@
    } else if depth == 16 {
        "Sixteen"@
    } else {
        nat_text(depth as nat)
    }
}

/// The refusal for a PNG layout outside the supported matrix.
pub open spec fn png_layout(color: PngColor, depth: u8) -> Seq<char> {
    "PNG "@ + png_color_name(color) + "/"@ + png_depth_name(depth)
        + " is not yet in the supported matrix"@
}

/// The refusal for a PNG layout outside the supported matrix.
fn png_layout_text(color: PngColor, depth: u8) -> (s: String)
    ensures
        s@ == png_layout(color, depth),
{
    let mut s = String::new();
    push_str(&mut s, "PNG ");
    push_str(
        &mut s,
        match color {
            PngColor::Grayscale => "Grayscale",
            PngColor::Rgb => "Rgb",
            PngColor::Indexed => "Indexed",
            PngColor::GrayscaleAlpha => "GrayscaleAlpha",
            PngColor::Rgba => "Rgba",
        },
    );
    push_str(&mut s, "/");
    if depth == 1 {
        push_str(&mut s, "One");
    } else if depth == 2 {
        push_str(&mut s, "Two");
    } else if depth == 4 {
        push_str(&mut s, "Four");
    } else if depth == 8 {
        push_str(&mut s, "Eight");
    } else if depth == 16 {
        push_str(&mut s, "Sixteen");
    } else {
        push_u64(&mut s, depth as u64);
    }
    push_str(&mut s, " is not yet in the supported matrix");
    s
}

} // verus!
