//! The Image Information document (info.json) of the Image API 3.0.
//!
//! Capability is baked in, not toggled: the only inputs are the image itself
//! (dimensions, pyramid structure) and the deployment's numeric limits.
//! Everything else — profile, qualities, formats, features — is a fixed fact
//! of the library, identical for every image.

use vstd::prelude::*;

verus! {

/// The v3 `@context` URI.
pub const CONTEXT: &'static str = "http://iiif.io/api/image/3/context.json";

/// The protocol URI, fixed by the Image API.
pub const PROTOCOL: &'static str = "http://iiif.io/api/image";

/// One entry in `sizes`: a complete scaled version of the full image.
#[derive(Debug, Clone, Copy, PartialEq, Eq, Structural)]
pub struct SizeEntry {
    /// Scaled full-image width in pixels.
    pub width: u32,
    /// Scaled full-image height in pixels.
    pub height: u32,
}

/// One entry in `tiles`: a tile size plus the scale factors at which that
/// tiling is natively cheap.
#[derive(Debug, Clone, PartialEq, Eq)]
pub struct TileSet {
    /// Tile width in pixels.
    pub width: u32,
    /// Tile height when it differs from the width.
    pub height: Option<u32>,
    /// Scale factors at which this tiling is natively cheap.
    pub scale_factors: Vec<u32>,
}

/// Deployment-level size limits — the denial-of-service posture. Always
/// published.
#[derive(Debug, Clone, Copy, PartialEq, Eq, Structural)]
pub struct Limits {
    /// Maximum output width in pixels.
    pub width: u32,
    /// Maximum output height in pixels.
    pub height: u32,
    /// Maximum output area in pixels (width × height).
    pub area: u64,
}

impl Limits {
    /// Limits of `width` × `height` pixels and `area` pixels in all.
    pub fn new(width: u32, height: u32, area: u64) -> (l: Limits)
        ensures
            l == (Limits { width, height, area }),
    {
        Limits { width, height, area }
    }
}

/// Everything the info.json needs about one image: its dimensions and the
/// pyramid structure actually present in the master.
#[derive(Debug, Clone, PartialEq, Eq)]
pub struct ImageDescription {
    /// Full-resolution image width in pixels.
    pub width: u32,
    /// Full-resolution image height in pixels.
    pub height: u32,
    /// Tile dimensions and pyramid scale factors derived from the master's
    /// actual structure; empty for untiled sources.
    pub tiles: Vec<TileSet>,
    /// Complete scaled sizes derived from the pyramid levels.
    pub sizes: Vec<SizeEntry>,
}

/// The info.json document.
#[derive(Debug, Clone)]
pub struct Info {
    /// The Image API 3.0 context URI.
    pub context: &'static str,
    /// The image's canonical base URI.
    pub id: String,
    /// Always `"ImageService3"`.
    pub type_: &'static str,
    /// Always the Image API protocol URI.
    pub protocol: &'static str,
    /// Compliance level (level 2).
    pub profile: &'static str,
    /// Full-resolution width in pixels.
    pub width: u32,
    /// Full-resolution height in pixels.
    pub height: u32,
    /// Maximum output width the deployment serves.
    pub max_width: u32,
    /// Maximum output height the deployment serves.
    pub max_height: u32,
    /// Maximum output area the deployment serves.
    pub max_area: u64,
    /// Complete scaled sizes (from the pyramid), smallest first.
    pub sizes: Vec<SizeEntry>,
    /// Native tilings and their scale factors.
    pub tiles: Vec<TileSet>,
    /// Qualities supported beyond the level-2 requirement.
    pub extra_qualities: Vec<&'static str>,
    /// Formats supported beyond the level-2 requirement.
    pub extra_formats: Vec<&'static str>,
    /// Feature names supported beyond the level-2 requirement.
    pub extra_features: Vec<&'static str>,
}

/// Whether `v` lists `color`, `gray`, `bitonal`, in that order.
pub open spec fn is_extra_qualities(v: Seq<&'static str>) -> bool {
    &&& v.len() == 3
    &&& v[0]@ == "color"@
    &&& v[1]@ == "gray"@
    &&& v[2]@ == "bitonal"@
}

/// Whether `v` lists `gif`, `jp2`, `pdf`, `tif`, `webp`, in that order.
pub open spec fn is_extra_formats(v: Seq<&'static str>) -> bool {
    &&& v.len() == 5
    &&& v[0]@ == "gif"@
    &&& v[1]@ == "jp2"@
    &&& v[2]@ == "pdf"@
    &&& v[3]@ == "tif"@
    &&& v[4]@ == "webp"@
}

/// Whether `v` lists the extra feature names, in the published order.
pub open spec fn is_extra_features(v: Seq<&'static str>) -> bool {
    &&& v.len() == 7
    &&& v[0]@ == "mirroring"@
    &&& v[1]@ == "regionSquare"@
    &&& v[2]@ == "rotationArbitrary"@
    &&& v[3]@ == "sizeByConfinedWh"@
    &&& v[4]@ == "sizeByDistortedWh"@
    &&& v[5]@ == "sizeByWh"@
    &&& v[6]@ == "sizeUpscaling"@
}

/// Qualities beyond the level-2 requirement that are always supported.
pub fn extra_qualities() -> (v: Vec<&'static str>)
    ensures
        is_extra_qualities(v@),
{
    let mut v: Vec<&'static str> = Vec::new();
    v.push("color");
    v.push("gray");
    v.push("bitonal");
    v
}

/// Formats beyond the level-2 requirement (`jpg`, `png`) that are encoded.
pub fn extra_formats() -> (v: Vec<&'static str>)
    ensures
        is_extra_formats(v@),
{
    let mut v: Vec<&'static str> = Vec::new();
    v.push("gif");
    v.push("jp2");
    v.push("pdf");
    v.push("tif");
    v.push("webp");
    v
}

/// Feature names beyond the level-2 set that are supported, from the v3
/// feature-name table.
pub fn extra_features() -> (v: Vec<&'static str>)
    ensures
        is_extra_features(v@),
{
    let mut v: Vec<&'static str> = Vec::new();
    v.push("mirroring");
    v.push("regionSquare");
    v.push("rotationArbitrary");
    v.push("sizeByConfinedWh");
    v.push("sizeByDistortedWh");
    v.push("sizeByWh");
    v.push("sizeUpscaling");
    v
}

impl Info {
    /// Assembles the document for one image. `id` is the full base URI of
    /// the image (scheme, server, prefix, identifier — no trailing slash).
    pub fn new(id: String, image: &ImageDescription, limits: Limits) -> (r: Info)
        ensures
            r.context@ == CONTEXT@,
            r.id@ == id@,
            r.type_@ == "ImageService3"@,
            r.protocol@ == PROTOCOL@,
            r.profile@ == "level2"@,
            r.width == image.width,
            r.height == image.height,
            r.max_width == limits.width,
            r.max_height == limits.height,
            r.max_area == limits.area,
            r.sizes@ == image.sizes@,
            r.tiles@.len() == image.tiles@.len(),
            forall|i: int|
                0 <= i < image.tiles@.len() ==> r.tiles@[i].width == image.tiles@[i].width
                    && r.tiles@[i].height == image.tiles@[i].height
                    && r.tiles@[i].scale_factors@ == image.tiles@[i].scale_factors@,
            is_extra_qualities(r.extra_qualities@),
            is_extra_formats(r.extra_formats@),
            is_extra_features(r.extra_features@),
    {
        Info {
            context: CONTEXT,
            id,
            type_: "ImageService3",
            protocol: PROTOCOL,
            profile: "level2",
            width: image.width,
            height: image.height,
            max_width: limits.width,
            max_height: limits.height,
            max_area: limits.area,
            sizes: image.sizes.clone(),
            tiles: clone_tiles(&image.tiles),
            extra_qualities: extra_qualities(),
            extra_formats: extra_formats(),
            extra_features: extra_features(),
        }
    }
}

/// A copy of each tile set.
fn clone_tiles(t: &Vec<TileSet>) -> (r: Vec<TileSet>)
    ensures
        r@.len() == t@.len(),
        forall|i: int|
            0 <= i < t@.len() ==> r@[i].width == t@[i].width && r@[i].height == t@[i].height
                && r@[i].scale_factors@ == t@[i].scale_factors@,
{
    let mut r: Vec<TileSet> = Vec::new();
    let mut i: usize = 0;
    while i < t.len()
        invariant
            i <= t@.len(),
            r@.len() == i,
            forall|k: int|
                0 <= k < i ==> r@[k].width == t@[k].width && r@[k].height == t@[k].height
                    && r@[k].scale_factors@ == t@[k].scale_factors@,
        decreases t@.len() - i,
    {
        let s = &t[i];
        r.push(TileSet { width: s.width, height: s.height, scale_factors: s.scale_factors.clone() });
        i += 1;
    }
    r
}

} // verus!
