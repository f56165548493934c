//! Codec layer: turns master files into [`Raster`] regions.
//!
//! Formats: pyramidal/tiled TIFF (the pyramid bookkeeping lives here),
//! JP2/HTJ2K ([`jp2`]), plain JPEG and PNG ([`simple`]).

pub mod jp2;
pub mod simple;

use vstd::prelude::*;
use crate::eval::CropRect;
use crate::image::{CopyRect, Raster, RasterError};
use crate::info::{ImageDescription, SizeEntry, TileSet};
use crate::grammar::push_str;
use crate::text::{nat_text, push_char, push_u64};

verus! {

/// Decompression-bomb ceiling for masters that must be decoded whole (plain
/// JPEG/PNG): 268 million pixels, under a gigabyte of RGB. Region-decoded
/// masters (pyramidal TIFF, tiled JP2) never materialize the full image and
/// are not bounded by it.
pub const MAX_RESIDENT_PIXELS: u64 = 268_435_456;

/// Codec-layer failure.
#[derive(Debug)]
pub enum CodecError {
    /// The master is outside the supported matrix — one actionable message,
    /// never a wrong image.
    Unsupported(String),
    /// The master is malformed.
    Corrupt(String),
    /// The master is valid but serving it would exceed a deliberate resource
    /// ceiling — a refusal, not a failure.
    LimitExceeded(String),
    /// Pixel bookkeeping failed (internal bug).
    Raster(RasterError),
}

impl CodecError {
    /// The message, prefixed by the kind of failure.
    pub fn to_string(&self) -> (s: String)
        ensures
            s@ == codec_error_text(*self),
    {
        let mut s = String::new();
        match self {
            CodecError::Unsupported(m) => {
                push_str(&mut s, "unsupported master: ");
                push_str(&mut s, m.as_str());
            },
            CodecError::Corrupt(m) => {
                push_str(&mut s, "corrupt master: ");
                push_str(&mut s, m.as_str());
            },
            CodecError::LimitExceeded(m) => {
                push_str(&mut s, "limit exceeded: ");
                push_str(&mut s, m.as_str());
            },
            CodecError::Raster(e) => {
                push_str(&mut s, "pixel bookkeeping: raster error: ");
                push_str(&mut s, e.0.as_str());
            },
        }
        s
    }
}

/// The text of a codec failure.
pub open spec fn codec_error_text(e: CodecError) -> Seq<char> {
    match e {
        CodecError::Unsupported(m) => "unsupported master: "@ + m@,
        CodecError::Corrupt(m) => "corrupt master: "@ + m@,
        CodecError::LimitExceeded(m) => "limit exceeded: "@ + m@,
        CodecError::Raster(r) => "pixel bookkeeping: raster error: "@ + r.0@,
    }
}

/// The refusal text for a `width`×`height` master over the ceiling.
pub open spec fn resident_limit_text(width: u32, height: u32) -> Seq<char> {
    nat_text(width as nat) + seq!['×'] + nat_text(height as nat)
        + " exceeds the whole-decode ceiling of 268435456 pixels; masters this large must be pyramidal: vips tiffsave in out.tif --tile --pyramid --compression jpeg"@
}

/// Rejects declared dimensions that would exceed [`MAX_RESIDENT_PIXELS`],
/// before anything is allocated.
///
/// # Errors
///
/// [`CodecError::LimitExceeded`] with the conversion advice.
pub fn guard_resident_pixels(width: u32, height: u32) -> (r: Result<(), CodecError>)
    ensures
        r is Ok <==> width * height <= MAX_RESIDENT_PIXELS,
        r matches Err(e) ==> e matches CodecError::LimitExceeded(m) && m@ == resident_limit_text(
            width,
            height,
        ),
{
    assert((width as u64) * (height as u64) <= 0xFFFF_FFFFu64 * 0xFFFF_FFFFu64) by (nonlinear_arith)
        requires
            width <= 0xFFFF_FFFFu32,
            height <= 0xFFFF_FFFFu32,
    ;
    let pixels = (width as u64) * (height as u64);
    if pixels > MAX_RESIDENT_PIXELS {
        let mut m = String::new();
        push_u64(&mut m, width as u64);
        push_char(&mut m, '×');
        push_u64(&mut m, height as u64);
        push_str(
            &mut m,
            " exceeds the whole-decode ceiling of 268435456 pixels; masters this large must be pyramidal: vips tiffsave in out.tif --tile --pyramid --compression jpeg",
        );
        assert(m@ =~= resident_limit_text(width, height));
        return Err(CodecError::LimitExceeded(m));
    }
    Ok(())
}

/// One resolution level of a pyramid, in its own pixel coordinates.
#[derive(Debug, Clone, Copy, PartialEq, Eq, Structural)]
pub struct LevelInfo {
    /// IFD index inside the TIFF.
    pub ifd: usize,
    /// Level width in this level's own pixels.
    pub width: u32,
    /// Level height in this level's own pixels.
    pub height: u32,
    /// Tile width at this level.
    pub tile_width: u32,
    /// Tile height at this level.
    pub tile_height: u32,
    /// Full-resolution pixels per pixel at this level (1, 2, 4, …).
    pub scale_factor: u32,
}

/// The scale factor of a `width`-wide level under a `full_w`-wide image:
/// the ratio rounded half up, at least 1.
pub open spec fn level_scale_factor(full_w: u32, width: u32) -> u32 {
    if width == 0 {
        1
    } else {
        let q = (2 * full_w + width) / (2 * width);
        if q == 0 {
            1
        } else {
            q as u32
        }
    }
}

/// The scale factor of a `width`-wide level under a `full_w`-wide image.
pub fn scale_factor_of(full_w: u32, width: u32) -> (r: u32)
    ensures
        r == level_scale_factor(full_w, width),
        r >= 1,
{
    if width == 0 {
        return 1;
    }
    let q = (2 * (full_w as u64) + width as u64) / (2 * width as u64);
    assert(q <= full_w as u64 + 1) by (nonlinear_arith)
        requires
            q == (2 * full_w + width) / (2 * width),
            width >= 1,
    ;
    assert(q <= full_w) by {
        if q > full_w {
            assert((2 * full_w + width) / (2 * width) <= full_w) by (nonlinear_arith)
                requires
                    width >= 1,
            ;
        }
    }
    if q == 0 {
        1
    } else {
        q as u32
    }
}

/// The refusal of an untiled IFD, with the conversion that fixes it.
pub open spec fn untiled_text(ifd: nat) -> Seq<char> {
    "IFD "@ + nat_text(ifd)
        + " is not tiled; this master will serve slowly — convert with: vips tiffsave in.tif out.tif --tile --pyramid"@
}

/// The pyramid level one IFD of a `full_w`-wide TIFF describes, from what
/// its header declares: its size, whether it is tiled, and its tile size.
///
/// # Errors
///
/// [`CodecError::Unsupported`] for an untiled IFD.
pub fn survey_level(
    ifd: usize,
    full_w: u32,
    width: u32,
    height: u32,
    tiled: bool,
    tile_width: u32,
    tile_height: u32,
) -> (r: Result<LevelInfo, CodecError>)
    ensures
        tiled ==> r == Ok::<LevelInfo, CodecError>(
            LevelInfo {
                ifd,
                width,
                height,
                tile_width,
                tile_height,
                scale_factor: level_scale_factor(full_w, width),
            },
        ),
        !tiled ==> (r matches Err(CodecError::Unsupported(m)) && m@ == untiled_text(ifd as nat)),
{
    if !tiled {
        let mut m = String::new();
        push_str(&mut m, "IFD ");
        push_u64(&mut m, ifd as u64);
        push_str(
            &mut m,
            " is not tiled; this master will serve slowly — convert with: vips tiffsave in.tif out.tif --tile --pyramid",
        );
        return Err(CodecError::Unsupported(m));
    }
    Ok(
        LevelInfo {
            ifd,
            width,
            height,
            tile_width,
            tile_height,
            scale_factor: scale_factor_of(full_w, width),
        },
    )
}

/// Whether the levels strictly descend in both dimensions — the pyramid
/// contract.
pub open spec fn strictly_descending(levels: Seq<LevelInfo>) -> bool {
    forall|i: int|
        0 <= i < levels.len() - 1 ==> #[trigger] levels[i + 1].width < levels[i].width
            && levels[i + 1].height < levels[i].height
}

/// Checks the pyramid contract: strictly descending levels. A same-size or
/// growing level means a multi-page document, not a pyramid.
///
/// # Errors
///
/// [`CodecError::Unsupported`] when the levels do not descend.
pub fn check_pyramid(levels: &Vec<LevelInfo>) -> (r: Result<(), CodecError>)
    ensures
        r is Ok <==> strictly_descending(levels@),
        r matches Err(e) ==> e matches CodecError::Unsupported(m) && m@
            == "multiple full-size images (multi-page TIFF?), not a pyramid"@,
{
    let n = levels.len();
    let mut i: usize = 1;
    while i < n
        invariant
            n == levels@.len(),
            1 <= i,
            i <= n || n == 0,
            forall|k: int|
                0 <= k < i - 1 ==> #[trigger] levels@[k + 1].width < levels@[k].width
                    && levels@[k + 1].height < levels@[k].height,
        decreases n - i,
    {
        if levels[i].width >= levels[i - 1].width || levels[i].height >= levels[i - 1].height {
            assert(levels@[(i - 1) + 1] == levels@[i as int]);
            return Err(
                CodecError::Unsupported(
                    "multiple full-size images (multi-page TIFF?), not a pyramid".to_string(),
                ),
            );
        }
        i += 1;
    }
    let ghost s = levels@;
    assert forall|k: int| 0 <= k < s.len() - 1 implies #[trigger] s[k + 1].width < s[k].width
        && s[k + 1].height < s[k].height by {
        assert(i == n);
        assert(k < i - 1);
        assert(levels@[k + 1].width < levels@[k].width);
    }
    assert(strictly_descending(s));
    Ok(())
}

/// The tile height to publish: none when the tiles are square.
pub open spec fn published_tile_height(tile_width: u32, tile_height: u32) -> Option<u32> {
    if tile_height == tile_width {
        None
    } else {
        Some(tile_height)
    }
}

/// The info.json ingredients of a pyramid: the base level's tile size with
/// every level's scale factor, and one size per level, smallest first.
pub open spec fn pyramid_description_ok(levels: Seq<LevelInfo>, d: ImageDescription) -> bool {
    &&& d.width == levels[0].width
    &&& d.height == levels[0].height
    &&& d.tiles@.len() == 1
    &&& d.tiles@[0].width == levels[0].tile_width
    &&& d.tiles@[0].height == published_tile_height(levels[0].tile_width, levels[0].tile_height)
    &&& d.tiles@[0].scale_factors@ == levels.map_values(|l: LevelInfo| l.scale_factor)
    &&& d.sizes@ == levels.map_values(|l: LevelInfo| SizeEntry { width: l.width, height: l.height }).reverse()
}

/// The info.json ingredients derived from the actual pyramid: tile size with
/// the real scale factors, and one `sizes` entry per level (ascending), so
/// viewers request only natively-cheap tiles.
pub fn describe_pyramid(levels: &Vec<LevelInfo>) -> (d: ImageDescription)
    requires
        levels@.len() >= 1,
    ensures
        pyramid_description_ok(levels@, d),
{
    let n = levels.len();
    let mut scale_factors: Vec<u32> = Vec::new();
    let mut sizes: Vec<SizeEntry> = Vec::new();
    let mut i: usize = 0;
    while i < n
        invariant
            n == levels@.len(),
            i <= n,
            scale_factors@ == levels@.take(i as int).map_values(|l: LevelInfo| l.scale_factor),
            sizes@ == levels@.take(i as int).map_values(
                |l: LevelInfo| SizeEntry { width: l.width, height: l.height },
            ).reverse(),
        decreases n - i,
    {
        let l = levels[i];
        scale_factors.push(l.scale_factor);
        sizes.insert(0, SizeEntry { width: l.width, height: l.height });
        proof {
            assert(levels@.take(i + 1) =~= levels@.take(i as int).push(l));
        }
        assert(scale_factors@ =~= levels@.take(i + 1).map_values(|l: LevelInfo| l.scale_factor));
        assert(sizes@ =~= levels@.take(i + 1).map_values(
            |l: LevelInfo| SizeEntry { width: l.width, height: l.height },
        ).reverse());
        i += 1;
    }
    assert(levels@.take(n as int) =~= levels@);
    let base = levels[0];
    let tiles = vec![
        TileSet {
            width: base.tile_width,
            height: if base.tile_height == base.tile_width {
                None
            } else {
                Some(base.tile_height)
            },
            scale_factors,
        },
    ];
    ImageDescription { width: base.width, height: base.height, tiles, sizes }
}

/// Whether a level is detailed enough for a downscale of `crop_w` full-res
/// pixels onto `out_w` output pixels: its scale factor is at most
/// `max(crop_w / max(out_w, 1), 1)`.
pub open spec fn level_fits(l: LevelInfo, crop_w: u32, out_w: u32) -> bool {
    let ow = if out_w == 0 {
        1
    } else {
        out_w
    };
    l.scale_factor <= 1 || l.scale_factor * ow <= crop_w
}

/// The index of the level to read: the last of the fitting levels with the
/// largest scale factor, or the first level when none fits.
pub open spec fn is_level_choice(levels: Seq<LevelInfo>, crop_w: u32, out_w: u32, i: int) -> bool {
    if exists|k: int| 0 <= k < levels.len() && level_fits(#[trigger] levels[k], crop_w, out_w) {
        &&& 0 <= i < levels.len()
        &&& level_fits(levels[i], crop_w, out_w)
        &&& forall|k: int|
            0 <= k < levels.len() && level_fits(#[trigger] levels[k], crop_w, out_w) ==> levels[k].scale_factor
                <= levels[i].scale_factor
        &&& forall|k: int|
            i < k < levels.len() && level_fits(#[trigger] levels[k], crop_w, out_w) ==> levels[k].scale_factor
                < levels[i].scale_factor
    } else {
        i == 0
    }
}

/// Picks the smallest level that still has enough detail for a downscale
/// of `crop_w` full-res pixels onto `out_w` output pixels.
pub fn level_for_needed(levels: &Vec<LevelInfo>, crop_w: u32, out_w: u32) -> (r: usize)
    requires
        levels@.len() >= 1,
    ensures
        r < levels@.len(),
        is_level_choice(levels@, crop_w, out_w, r as int),
{
    let ow: u64 = if out_w == 0 {
        1
    } else {
        out_w as u64
    };
    let n = levels.len();
    let mut best: Option<usize> = None;
    let mut i: usize = 0;
    while i < n
        invariant
            n == levels@.len(),
            i <= n,
            ow == (if out_w == 0 {
                1
            } else {
                out_w as u64
            }),
            match best {
                None => forall|k: int| 0 <= k < i ==> !level_fits(#[trigger] levels@[k], crop_w, out_w),
                Some(b) => {
                    &&& b < i
                    &&& level_fits(levels@[b as int], crop_w, out_w)
                    &&& forall|k: int|
                        0 <= k < i && level_fits(#[trigger] levels@[k], crop_w, out_w) ==> levels@[k].scale_factor
                            <= levels@[b as int].scale_factor
                    &&& forall|k: int|
                        b < k < i && level_fits(#[trigger] levels@[k], crop_w, out_w) ==> levels@[k].scale_factor
                            < levels@[b as int].scale_factor
                },
            },
        decreases n - i,
    {
        let sf = levels[i].scale_factor;
        assert((sf as u64) * ow <= 0xFFFF_FFFFu64 * 0xFFFF_FFFFu64) by (nonlinear_arith)
            requires
                sf <= 0xFFFF_FFFFu32,
                ow <= 0xFFFF_FFFFu64,
        ;
        let fits = sf <= 1 || (sf as u64) * ow <= crop_w as u64;
        if fits {
            match best {
                None => {
                    best = Some(i);
                },
                Some(b) => {
                    if levels[b].scale_factor <= sf {
                        best = Some(i);
                    }
                },
            }
        }
        i += 1;
    }
    match best {
        Some(b) => b,
        None => 0,
    }
}

/// A full-resolution crop mapped into a level's own pixels: the origin
/// floored and the far edge ceiled by the scale factor, both clamped to the
/// level, at least one pixel each way.
pub open spec fn level_region(crop: CropRect, level: LevelInfo) -> (u32, u32, u32, u32) {
    let f = level.scale_factor as int;
    let lw = level.width as int;
    let lh = level.height as int;
    let left = min_int(crop.x as int / f, if lw > 0 { lw - 1 } else { 0 });
    let top = min_int(crop.y as int / f, if lh > 0 { lh - 1 } else { 0 });
    let right = min_int((crop.x + crop.w + f - 1) / f, lw);
    let bottom = min_int((crop.y + crop.h + f - 1) / f, lh);
    let w = if right - left >= 1 { right - left } else { 1 };
    let h = if bottom - top >= 1 { bottom - top } else { 1 };
    (left as u32, top as u32, w as u32, h as u32)
}

/// The smaller of two integers.
pub open spec fn min_int(a: int, b: int) -> int {
    if a <= b {
        a
    } else {
        b
    }
}

/// Maps a full-resolution crop into `level`'s coordinates:
/// `(left, top, width, height)`.
pub fn crop_in_level(crop: CropRect, level: LevelInfo) -> (r: (u32, u32, u32, u32))
    requires
        level.scale_factor >= 1,
    ensures
        r == level_region(crop, level),
{
    let f = level.scale_factor as u64;
    let lw = level.width as u64;
    let lh = level.height as u64;
    let lx = crop.x as u64 / f;
    let ly = crop.y as u64 / f;
    let left = if lw > 0 && lx > lw - 1 {
        lw - 1
    } else if lw == 0 {
        0
    } else {
        lx
    };
    let top = if lh > 0 && ly > lh - 1 {
        lh - 1
    } else if lh == 0 {
        0
    } else {
        ly
    };
    let rx = (crop.x as u64 + crop.w as u64 + f - 1) / f;
    let ry = (crop.y as u64 + crop.h as u64 + f - 1) / f;
    let right = if rx <= lw {
        rx
    } else {
        lw
    };
    let bottom = if ry <= lh {
        ry
    } else {
        lh
    };
    proof {
        assert(lx <= crop.x) by (nonlinear_arith)
            requires
                lx == crop.x as int / f as int,
                f >= 1,
        ;
        assert(ly <= crop.y) by (nonlinear_arith)
            requires
                ly == crop.y as int / f as int,
                f >= 1,
        ;
    }
    let w = if right >= left + 1 {
        right - left
    } else {
        1
    };
    let h = if bottom >= top + 1 {
        bottom - top
    } else {
        1
    };
    (left as u32, top as u32, w as u32, h as u32)
}

/// The tile grid a level region touches: `(first_col, last_col, first_row,
/// last_row, tiles_across)`, all in tiles.
pub open spec fn tile_span(level: LevelInfo, x: u32, y: u32, width: u32, height: u32) -> (
    u32,
    u32,
    u32,
    u32,
    u32,
) {
    let tw = level.tile_width as int;
    let th = level.tile_height as int;
    (
        (x as int / tw) as u32,
        ((x + width - 1) / tw) as u32,
        (y as int / th) as u32,
        ((y + height - 1) / th) as u32,
        ((level.width + tw - 1) / tw) as u32,
    )
}

/// The tiles a region touches are the ones that cover it, in a grid as
/// wide as the level: `tiles_across` columns of `tile_width` cover the
/// level's width with less than one column to spare; the first and last
/// column (row) are those holding the region's first and last pixel
/// column (row); and the last column lies inside the grid. So the tile at
/// row `r`, column `c` is number `r × tiles_across + c`.
pub proof fn lemma_tile_span_covers(level: LevelInfo, x: u32, y: u32, width: u32, height: u32)
    requires
        region_in_level(level, x, y, width, height),
        level.tile_width > 0,
        level.tile_height > 0,
    ensures
        ({
            let (c0, c1, r0, r1, across) = tile_span(level, x, y, width, height);
            let tw = level.tile_width as int;
            let th = level.tile_height as int;
            &&& (across - 1) * tw < level.width <= across * tw
            &&& c0 * tw <= x < (c0 + 1) * tw
            &&& c1 * tw <= x + width - 1 < (c1 + 1) * tw
            &&& r0 * th <= y < (r0 + 1) * th
            &&& r1 * th <= y + height - 1 < (r1 + 1) * th
            &&& c0 <= c1 < across
        }),
{
    let tw = level.tile_width as int;
    let th = level.tile_height as int;
    let wd = level.width as int;
    let a = (wd + tw - 1) / tw;
    assert(a * tw <= wd + tw - 1 < (a + 1) * tw && 0 <= a <= wd) by (nonlinear_arith)
        requires
            a == (wd + tw - 1) / tw,
            tw >= 1,
            wd >= 1,
    ;
    assert(wd <= a * tw && (a - 1) * tw < wd) by (nonlinear_arith)
        requires
            a * tw <= wd + tw - 1 < (a + 1) * tw,
    ;
    let c0 = x as int / tw;
    let c1 = (x + width - 1) / tw;
    let r0 = y as int / th;
    let r1 = (y + height - 1) / th;
    assert(c0 * tw <= x < (c0 + 1) * tw && 0 <= c0 <= x) by (nonlinear_arith)
        requires
            c0 == x as int / tw,
            tw >= 1,
            x >= 0,
    ;
    assert(c1 * tw <= x + width - 1 < (c1 + 1) * tw && 0 <= c1 <= x + width - 1)
        by (nonlinear_arith)
        requires
            c1 == (x + width - 1) / tw,
            tw >= 1,
            x + width - 1 >= 0,
    ;
    assert(r0 * th <= y < (r0 + 1) * th && 0 <= r0 <= y) by (nonlinear_arith)
        requires
            r0 == y as int / th,
            th >= 1,
            y >= 0,
    ;
    assert(r1 * th <= y + height - 1 < (r1 + 1) * th && 0 <= r1 <= y + height - 1)
        by (nonlinear_arith)
        requires
            r1 == (y + height - 1) / th,
            th >= 1,
            y + height - 1 >= 0,
    ;
    assert(c0 <= c1) by (nonlinear_arith)
        requires
            c0 * tw <= x,
            x <= x + width - 1 < (c1 + 1) * tw,
            tw >= 1,
    ;
    assert(c1 < a) by (nonlinear_arith)
        requires
            c1 * tw <= x + width - 1,
            x + width - 1 < wd,
            wd <= a * tw,
            tw >= 1,
    ;
}

/// Whether a level region is non-empty and lies inside the level.
pub open spec fn region_in_level(level: LevelInfo, x: u32, y: u32, width: u32, height: u32) -> bool {
    &&& x + width <= level.width
    &&& y + height <= level.height
    &&& width > 0
    &&& height > 0
}

/// The tiles a region of a level touches.
///
/// # Errors
///
/// [`CodecError::Corrupt`] when the region is empty or outside the level
/// (a caller bug, not a client error: evaluation already clipped), or the
/// level declares zero-sized tiles.
pub fn tiles_for_region(level: LevelInfo, x: u32, y: u32, width: u32, height: u32) -> (r: Result<
    (u32, u32, u32, u32, u32),
    CodecError,
>)
    ensures
        r is Ok <==> region_in_level(level, x, y, width, height) && level.tile_width > 0
            && level.tile_height > 0,
        r matches Ok(span) ==> span == tile_span(level, x, y, width, height),
        r matches Err(e) ==> e matches CodecError::Corrupt(m) && m@ == (if region_in_level(
            level,
            x,
            y,
            width,
            height,
        ) {
            "zero-sized tiles"@
        } else {
            "region outside level bounds"@
        }),
{
    if x as u64 + width as u64 > level.width as u64 || y as u64 + height as u64
        > level.height as u64 || width == 0 || height == 0 {
        return Err(CodecError::Corrupt("region outside level bounds".to_string()));
    }
    if level.tile_width == 0 || level.tile_height == 0 {
        return Err(CodecError::Corrupt("zero-sized tiles".to_string()));
    }
    let tw = level.tile_width;
    let th = level.tile_height;
    let across = ((level.width as u64 + tw as u64 - 1) / tw as u64) as u32;
    proof {
        assert((level.width + tw - 1) / (tw as int) <= level.width) by (nonlinear_arith)
            requires
                tw >= 1,
        ;
    }
    Ok((x / tw, (x + width - 1) / tw, y / th, (y + height - 1) / th, across))
}

/// Where a decoded tile lands in the output: the intersection of the tile's
/// footprint with the requested region, in tile and output coordinates.
/// `None` when they do not overlap.
pub open spec fn tile_overlap(
    tile_left: int,
    tile_top: int,
    tile_w: int,
    tile_h: int,
    x: int,
    y: int,
    width: int,
    height: int,
) -> Option<(CopyRect, u32, u32)> {
    let left = if x >= tile_left { x } else { tile_left };
    let top = if y >= tile_top { y } else { tile_top };
    let right = min_int(x + width, tile_left + tile_w);
    let bottom = min_int(y + height, tile_top + tile_h);
    if right <= left || bottom <= top {
        None
    } else {
        Some(
            (
                CopyRect {
                    src_x: (left - tile_left) as u32,
                    src_y: (top - tile_top) as u32,
                    width: (right - left) as u32,
                    height: (bottom - top) as u32,
                },
                (left - x) as u32,
                (top - y) as u32,
            ),
        )
    }
}

/// Copies the part of a decoded tile (at column `tile_col`, row `tile_row`
/// of the level's grid) that falls inside the region at (`x`, `y`) of size
/// `width`×`height` into `out`, which holds that region.
///
/// # Errors
///
/// [`CodecError::Raster`] when the blit fails (mismatched layouts).
pub fn place_tile(
    out: &mut Raster,
    tile: &Raster,
    level: LevelInfo,
    tile_col: u32,
    tile_row: u32,
    x: u32,
    y: u32,
    width: u32,
    height: u32,
) -> (r: Result<(), CodecError>)
    requires
        old(out).wf(),
        tile.wf(),
        old(out).spec_width() == width,
        old(out).spec_height() == height,
        x + width <= u32::MAX,
        y + height <= u32::MAX,
    ensures
        final(out).spec_width() == old(out).spec_width(),
        final(out).spec_height() == old(out).spec_height(),
        final(out).spec_channels() == old(out).spec_channels(),
        match tile_overlap(
            tile_col * level.tile_width,
            tile_row * level.tile_height,
            tile.spec_width() as int,
            tile.spec_height() as int,
            x as int,
            y as int,
            width as int,
            height as int,
        ) {
            None => r is Ok && *final(out) == *old(out),
            Some((rect, dx, dy)) => (r is Ok <==> old(out).spec_channels() == tile.spec_channels())
                && (r is Ok ==> final(out).spec_data() == crate::image::blit_data(
                old(out).spec_data(),
                tile.spec_data(),
                width as int,
                tile.spec_width() as int,
                tile.spec_channels() as int,
                rect.src_x as int,
                rect.src_y as int,
                rect.width as int,
                rect.height as int,
                dx as int,
                dy as int,
            )) && (r is Err ==> *final(out) == *old(out)),
        },
{
    assert((tile_col as u64) * (level.tile_width as u64) <= 0xFFFF_FFFFu64 * 0xFFFF_FFFFu64 && (
    tile_row as u64) * (level.tile_height as u64) <= 0xFFFF_FFFFu64 * 0xFFFF_FFFFu64)
        by (nonlinear_arith)
        requires
            tile_col <= 0xFFFF_FFFFu32,
            tile_row <= 0xFFFF_FFFFu32,
            level.tile_width <= 0xFFFF_FFFFu32,
            level.tile_height <= 0xFFFF_FFFFu32,
    ;
    let tile_left = (tile_col as u64) * (level.tile_width as u64);
    let tile_top = (tile_row as u64) * (level.tile_height as u64);
    let xe = x as u64;
    let ye = y as u64;
    let left = if xe >= tile_left {
        xe
    } else {
        tile_left
    };
    let top = if ye >= tile_top {
        ye
    } else {
        tile_top
    };
    let re = tile_left + tile.width() as u64;
    let be = tile_top + tile.height() as u64;
    let right = if xe + (width as u64) <= re {
        xe + width as u64
    } else {
        re
    };
    let bottom = if ye + (height as u64) <= be {
        ye + height as u64
    } else {
        be
    };
    if right <= left || bottom <= top {
        return Ok(());
    }
    let rect = CopyRect {
        src_x: (left - tile_left) as u32,
        src_y: (top - tile_top) as u32,
        width: (right - left) as u32,
        height: (bottom - top) as u32,
    };
    match out.blit(tile, rect, (left - xe) as u32, (top - ye) as u32) {
        Ok(()) => Ok(()),
        Err(e) => Err(CodecError::Raster(e)),
    }
}

/// The samples of a decoded tile, cut to exactly `needed` bytes.
///
/// # Errors
///
/// [`CodecError::Corrupt`] when the decoder returned fewer.
pub fn take_samples(data: Vec<u8>, needed: usize) -> (r: Result<Vec<u8>, CodecError>)
    ensures
        r is Ok <==> data@.len() >= needed,
        r matches Ok(v) ==> v@ == data@.take(needed as int),
        r matches Err(e) ==> e matches CodecError::Corrupt(m) && m@ == "short tile data"@,
{
    if data.len() < needed {
        return Err(CodecError::Corrupt("short tile data".to_string()));
    }
    let mut data = data;
    data.truncate(needed);
    Ok(data)
}

/// The container formats a master can be opened as.
#[derive(Debug, Clone, Copy, PartialEq, Eq, Structural)]
pub enum MasterKind {
    /// Pyramidal/tiled TIFF (`II*\0` or `MM\0*`).
    Tiff,
    /// JPEG 2000: a JP2 box signature at offset 4, or a raw codestream.
    Jp2,
    /// Plain JPEG (`FF D8`).
    Jpeg,
    /// Plain PNG (`89 'P' 'N' 'G'`).
    Png,
}

/// Whether `s` begins with `p`.
pub open spec fn bytes_start_with(s: Seq<u8>, p: Seq<u8>) -> bool {
    p.len() <= s.len() && s.take(p.len() as int) == p
}

/// The format the first (up to twelve) bytes of a master announce.
pub open spec fn spec_sniff(magic: Seq<u8>) -> Option<MasterKind> {
    if bytes_start_with(magic, seq![0x49u8, 0x49, 0x2A, 0x00]) || bytes_start_with(
        magic,
        seq![0x4Du8, 0x4D, 0x00, 0x2A],
    ) {
        Some(MasterKind::Tiff)
    } else if (magic.len() >= 12 && magic.subrange(4, 12) == seq![
        0x6Au8,
        0x50,
        0x20,
        0x20,
        0x0D,
        0x0A,
        0x87,
        0x0A,
    ]) || bytes_start_with(magic, seq![0xFFu8, 0x4F, 0xFF, 0x51]) {
        Some(MasterKind::Jp2)
    } else if bytes_start_with(magic, seq![0xFFu8, 0xD8]) {
        Some(MasterKind::Jpeg)
    } else if bytes_start_with(magic, seq![0x89u8, 0x50, 0x4E, 0x47]) {
        Some(MasterKind::Png)
    } else {
        None
    }
}

/// Whether `s` begins with `p` (exec).
fn starts_with_bytes(s: &[u8], p: &[u8]) -> (b: bool)
    ensures
        b == bytes_start_with(s@, p@),
{
    if p.len() > s.len() {
        return false;
    }
    let mut i: usize = 0;
    while i < p.len()
        invariant
            p@.len() <= s@.len(),
            i <= p@.len(),
            forall|j: int| 0 <= j < i ==> s@[j] == p@[j],
        decreases p@.len() - i,
    {
        if s[i] != p[i] {
            assert(s@.take(p@.len() as int)[i as int] != p@[i as int]);
            return false;
        }
        i += 1;
    }
    assert(s@.take(p@.len() as int) =~= p@);
    true
}

/// Sniffs the container format from a master's first bytes.
///
/// # Errors
///
/// [`CodecError::Unsupported`] with an actionable message for anything
/// outside the supported matrix.
pub fn sniff_master(magic: &[u8]) -> (r: Result<MasterKind, CodecError>)
    ensures
        match spec_sniff(magic@) {
            Some(k) => r == Ok::<MasterKind, CodecError>(k),
            None => r matches Err(CodecError::Unsupported(m)) && m@
                == "unrecognized master format (supported: pyramidal TIFF, JP2/HTJ2K, JPEG, PNG)"@,
        },
{
    let tiff_le: [u8; 4] = [0x49, 0x49, 0x2A, 0x00];
    let tiff_be: [u8; 4] = [0x4D, 0x4D, 0x00, 0x2A];
    let jp2_box: [u8; 8] = [0x6A, 0x50, 0x20, 0x20, 0x0D, 0x0A, 0x87, 0x0A];
    let j2k: [u8; 4] = [0xFF, 0x4F, 0xFF, 0x51];
    let jpeg: [u8; 2] = [0xFF, 0xD8];
    let png: [u8; 4] = [0x89, 0x50, 0x4E, 0x47];
    assert(tiff_le@ == seq![0x49u8, 0x49, 0x2A, 0x00]);
    assert(tiff_be@ == seq![0x4Du8, 0x4D, 0x00, 0x2A]);
    assert(jp2_box@ == seq![0x6Au8, 0x50, 0x20, 0x20, 0x0D, 0x0A, 0x87, 0x0A]);
    assert(j2k@ == seq![0xFFu8, 0x4F, 0xFF, 0x51]);
    assert(jpeg@ == seq![0xFFu8, 0xD8]);
    assert(png@ == seq![0x89u8, 0x50, 0x4E, 0x47]);
    if starts_with_bytes(magic, tiff_le.as_slice()) || starts_with_bytes(magic, tiff_be.as_slice()) {
        return Ok(MasterKind::Tiff);
    }
    let boxed = if magic.len() >= 12 {
        let tail = slice_from(magic, 4);
        assert(tail@ == magic@.skip(4));
        let b = starts_with_bytes(tail, jp2_box.as_slice());
        assert(b == (magic@.subrange(4, 12) == jp2_box@)) by {
            assert(magic@.skip(4).take(8) =~= magic@.subrange(4, 12));
        }
        b
    } else {
        false
    };
    if boxed || starts_with_bytes(magic, j2k.as_slice()) {
        return Ok(MasterKind::Jp2);
    }
    if starts_with_bytes(magic, jpeg.as_slice()) {
        return Ok(MasterKind::Jpeg);
    }
    if starts_with_bytes(magic, png.as_slice()) {
        return Ok(MasterKind::Png);
    }
    Err(
        CodecError::Unsupported(
            "unrecognized master format (supported: pyramidal TIFF, JP2/HTJ2K, JPEG, PNG)".to_string(),
        ),
    )
}

/// The bytes of `s` from `k` on.
fn slice_from(s: &[u8], k: usize) -> (r: &[u8])
    requires
        k <= s@.len(),
    ensures
        r@ == s@.skip(k as int),
{
    let r = vstd::slice::slice_subrange(s, k, s.len());
    assert(r@ =~= s@.skip(k as int));
    r
}

} // verus!
