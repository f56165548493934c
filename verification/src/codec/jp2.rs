//! JP2 / HTJ2K masters: what the codestream header says, and the decisions a
//! region decode makes from it (how many resolution halvings to skip, which
//! scaled rectangle covers the request).

use vstd::prelude::*;
use crate::codec::CodecError;
use crate::eval::CropRect;
use crate::grammar::push_str;
use crate::info::{ImageDescription, SizeEntry, TileSet};
use crate::text::push_u64;

verus! {

/// Default tile size advertised for untiled codestreams: reduced-resolution
/// decode makes any aligned request natively cheap, so the advertised grid
/// is a viewer hint, not a constraint.
pub const DEFAULT_TILE: u32 = 1024;

/// An opened JP2/HTJ2K master: the compressed codestream and its header
/// facts.
pub struct Jp2Master {
    /// The whole compressed codestream.
    bytes: Vec<u8>,
    /// Full image width in pixels, from the codestream header.
    width: u32,
    /// Full image height in pixels, from the codestream header.
    height: u32,
    /// Component count: 1 for gray, 3 for colour.
    components: u16,
    /// Resolution levels the codestream carries (at least 1), which bounds
    /// how far a power-of-two downscale can be served by decoding less.
    resolution_levels: u8,
    /// Tile dimensions, or the default grid when untiled.
    tile: (u32, u32),
    /// Live pool-pressure hint: whether the decoder may use its own
    /// threads.
    internal_parallelism: bool,
}

/// `2^n`.
pub open spec fn pow2(n: nat) -> nat
    decreases n,
{
    if n == 0 {
        1
    } else {
        2 * pow2((n - 1) as nat)
    }
}

/// Whether `level` halvings still leave at least one full-resolution pixel
/// per output pixel for a `crop_w` → `out_w` downscale (shifts capped at
/// 31).
pub open spec fn halvings_fit(level: nat, crop_w: u32, out_w: u32) -> bool {
    let ow = if out_w == 0 {
        1
    } else {
        out_w as nat
    };
    pow2(if level <= 31 {
        level
    } else {
        31
    }) * ow <= crop_w
}

/// The largest level in `1..=max_level` that fits, or 0.
pub open spec fn halvings_for(max_level: nat, crop_w: u32, out_w: u32) -> nat
    decreases max_level,
{
    if max_level == 0 {
        0
    } else if halvings_fit(max_level, crop_w, out_w) {
        max_level
    } else {
        halvings_for((max_level - 1) as nat, crop_w, out_w)
    }
}

/// `ceil(a / d)`.
pub open spec fn div_ceil(a: nat, d: nat) -> nat {
    ((a + d - 1) / (d as int)) as nat
}

/// The smallest `1/denom`-scaled rectangle covering `rect`: the origin
/// floored, the far edge (saturated at `u32::MAX`) ceiled.
pub open spec fn covering_rect(rect: CropRect, denom: nat) -> CropRect {
    let x0 = (rect.x as nat) / denom;
    let y0 = (rect.y as nat) / denom;
    let xe = if rect.x + rect.w > u32::MAX {
        u32::MAX as nat
    } else {
        (rect.x + rect.w) as nat
    };
    let ye = if rect.y + rect.h > u32::MAX {
        u32::MAX as nat
    } else {
        (rect.y + rect.h) as nat
    };
    let x1 = div_ceil(xe, denom);
    let y1 = div_ceil(ye, denom);
    CropRect {
        x: x0 as u32,
        y: y0 as u32,
        w: (if x1 >= x0 {
            x1 - x0
        } else {
            0
        }) as u32,
        h: (if y1 >= y0 {
            y1 - y0
        } else {
            0
        }) as u32,
    }
}

/// Powers of two grow with the exponent.
proof fn lemma_pow2_mono(a: nat, b: nat)
    requires
        a <= b,
    ensures
        1 <= pow2(a) <= pow2(b),
    decreases b,
{
    if b > a {
        lemma_pow2_mono(a, (b - 1) as nat);
    } else if a > 0 {
        lemma_pow2_mono((a - 1) as nat, (a - 1) as nat);
    }
}

/// `2^n` for `n <= 31`.
fn pow2_u32(n: u32) -> (r: u32)
    requires
        n <= 31,
    ensures
        r == pow2(n as nat),
        r >= 1,
{
    proof {
        reveal_with_fuel(pow2, 32);
        assert(pow2(31) == 0x8000_0000);
    }
    let mut r: u32 = 1;
    let mut i: u32 = 0;
    while i < n
        invariant
            i <= n <= 31,
            r == pow2(i as nat),
            pow2(31) == 0x8000_0000,
        decreases n - i,
    {
        proof {
            lemma_pow2_mono((i + 1) as nat, 31);
        }
        r = r * 2;
        i += 1;
    }
    proof {
        lemma_pow2_mono(0, n as nat);
    }
    r
}

/// The smallest `1/denom`-scaled rectangle covering `rect`.
pub fn scaled_covering(rect: CropRect, denom: u32) -> (r: CropRect)
    requires
        denom >= 1,
    ensures
        r == covering_rect(rect, denom as nat),
{
    let x0 = rect.x / denom;
    let y0 = rect.y / denom;
    let xe = rect.x.saturating_add(rect.w);
    let ye = rect.y.saturating_add(rect.h);
    let x1 = ((xe as u64 + denom as u64 - 1) / denom as u64) as u32;
    let y1 = ((ye as u64 + denom as u64 - 1) / denom as u64) as u32;
    proof {
        assert((xe + denom - 1) / (denom as int) <= xe) by (nonlinear_arith)
            requires
                denom >= 1,
                xe >= 0,
        ;
        assert((ye + denom - 1) / (denom as int) <= ye) by (nonlinear_arith)
            requires
                denom >= 1,
                ye >= 0,
        ;
    }
    CropRect { x: x0, y: y0, w: x1.saturating_sub(x0), h: y1.saturating_sub(y0) }
}

/// The v2-and-v3 message for an unsupported component count.
pub open spec fn components_text_ok(s: Seq<char>, components: u16) -> bool {
    s == crate::text::nat_text(components as nat) + "-component JP2 is not yet in the supported matrix"@
}

impl Jp2Master {
    /// The full image width.
    pub closed spec fn spec_width(self) -> u32 {
        self.width
    }

    /// The full image height.
    pub closed spec fn spec_height(self) -> u32 {
        self.height
    }

    /// The component count.
    pub closed spec fn spec_components(self) -> u16 {
        self.components
    }

    /// The resolution levels.
    pub closed spec fn spec_resolution_levels(self) -> u8 {
        self.resolution_levels
    }

    /// The advertised tile size.
    pub closed spec fn spec_tile(self) -> (u32, u32) {
        self.tile
    }

    /// The codestream.
    pub closed spec fn spec_bytes(self) -> Seq<u8> {
        self.bytes@
    }

    /// Whether the decoder may use its own threads.
    pub closed spec fn spec_internal_parallelism(self) -> bool {
        self.internal_parallelism
    }

    /// A master over `bytes` whose codestream header declares the given
    /// dimensions, component count, resolution levels and (if tiled) tile
    /// size. At least one resolution level is kept; an untiled codestream
    /// advertises the default grid.
    ///
    /// # Errors
    ///
    /// [`CodecError::Unsupported`] for component counts other than 1 and 3.
    pub fn from_header(
        bytes: Vec<u8>,
        width: u32,
        height: u32,
        components: u16,
        resolution_levels: u8,
        tile: Option<(u32, u32)>,
    ) -> (r: Result<Jp2Master, CodecError>)
        ensures
            r is Ok <==> components == 1 || components == 3,
            r matches Ok(m) ==> {
                &&& m.spec_bytes() == bytes@
                &&& m.spec_width() == width
                &&& m.spec_height() == height
                &&& m.spec_components() == components
                &&& m.spec_resolution_levels() == (if resolution_levels == 0 {
                    1
                } else {
                    resolution_levels
                })
                &&& m.spec_tile() == (match tile {
                    Some(t) => t,
                    None => (DEFAULT_TILE, DEFAULT_TILE),
                })
                &&& !m.spec_internal_parallelism()
            },
            r matches Err(e) ==> e matches CodecError::Unsupported(s) && components_text_ok(
                s@,
                components,
            ),
    {
        if components != 1 && components != 3 {
            let mut s = String::new();
            push_u64(&mut s, components as u64);
            push_str(&mut s, "-component JP2 is not yet in the supported matrix");
            return Err(CodecError::Unsupported(s));
        }
        let resolution_levels = if resolution_levels == 0 {
            1
        } else {
            resolution_levels
        };
        let tile = match tile {
            Some(t) => t,
            None => (DEFAULT_TILE, DEFAULT_TILE),
        };
        Ok(
            Jp2Master {
                bytes,
                width,
                height,
                components,
                resolution_levels,
                tile,
                internal_parallelism: false,
            },
        )
    }

    /// The codestream.
    pub fn bytes(&self) -> (b: &[u8])
        ensures
            b@ == self.spec_bytes(),
    {
        self.bytes.as_slice()
    }

    /// Full-resolution dimensions.
    pub fn dimensions(&self) -> (r: (u32, u32))
        ensures
            r == (self.spec_width(), self.spec_height()),
    {
        (self.width, self.height)
    }

    /// Samples per decoded pixel: 1 for a single-component codestream, 3
    /// (RGB) otherwise.
    pub fn channels(&self) -> (c: u32)
        ensures
            c == (if self.spec_components() == 1 {
                1u32
            } else {
                3u32
            }),
    {
        if self.components == 1 {
            1
        } else {
            3
        }
    }

    /// Sets the pool-pressure hint.
    pub fn set_internal_parallelism(&mut self, allow: bool)
        ensures
            final(self).spec_internal_parallelism() == allow,
            final(self).spec_bytes() == old(self).spec_bytes(),
            final(self).spec_width() == old(self).spec_width(),
            final(self).spec_height() == old(self).spec_height(),
            final(self).spec_components() == old(self).spec_components(),
            final(self).spec_resolution_levels() == old(self).spec_resolution_levels(),
            final(self).spec_tile() == old(self).spec_tile(),
    {
        self.internal_parallelism = allow;
    }

    /// Resolution levels the codestream carries (at least one).
    pub fn resolution_levels(&self) -> (r: u8)
        ensures
            r == self.spec_resolution_levels(),
    {
        self.resolution_levels
    }

    /// Whether the decoder may use its own threads.
    pub fn internal_parallelism(&self) -> (b: bool)
        ensures
            b == self.spec_internal_parallelism(),
    {
        self.internal_parallelism
    }

    /// The deepest cheap downscale for a `crop_w` → `out_w` reduction, as a
    /// resolution-halving count, bounded by the codestream's own ladder.
    pub fn levels_for(&self, crop_w: u32, out_w: u32) -> (r: u8)
        requires
            self.spec_resolution_levels() >= 1,
        ensures
            r == halvings_for((self.spec_resolution_levels() - 1) as nat, crop_w, out_w),
    {
        let max_level = self.resolution_levels - 1;
        let ow: u64 = if out_w == 0 {
            1
        } else {
            out_w as u64
        };
        let mut choice: u8 = 0;
        let mut level: u8 = 1;
        while level <= max_level
            invariant
                max_level == self.resolution_levels - 1,
                max_level <= 254,
                1 <= level,
                level <= max_level + 1,
                ow == (if out_w == 0 {
                    1
                } else {
                    out_w as u64
                }),
                choice == halvings_for((level - 1) as nat, crop_w, out_w),
            decreases max_level + 1 - level,
        {
            let shift: u32 = if level <= 31 {
                level as u32
            } else {
                31
            };
            let p = pow2_u32(shift);
            assert((p as u64) * ow <= 0xFFFF_FFFFu64 * 0xFFFF_FFFFu64) by (nonlinear_arith)
                requires
                    p <= 0xFFFF_FFFFu32,
                    ow <= 0xFFFF_FFFFu64,
            ;
            if (p as u64) * ow <= crop_w as u64 {
                choice = level;
            }
            if level == 255 {
                return choice;
            }
            level += 1;
        }
        choice
    }

    /// The codestream's resolution ladder in info.json form: scale factors
    /// `1, 2, 4, …` and, smallest first, the full size divided (rounding
    /// up) by each.
    pub fn describe(&self) -> (d: ImageDescription)
        requires
            1 <= self.spec_resolution_levels() <= 32,
        ensures
            d.width == self.spec_width(),
            d.height == self.spec_height(),
            d.tiles@.len() == 1,
            d.tiles@[0].width == self.spec_tile().0,
            d.tiles@[0].height == (if self.spec_tile().1 == self.spec_tile().0 {
                None
            } else {
                Some(self.spec_tile().1)
            }),
            d.tiles@[0].scale_factors@ == Seq::new(
                self.spec_resolution_levels() as nat,
                |l: int| pow2(l as nat) as u32,
            ),
            d.sizes@ == Seq::new(
                self.spec_resolution_levels() as nat,
                |l: int|
                    SizeEntry {
                        width: div_ceil(self.spec_width() as nat, pow2(l as nat)) as u32,
                        height: div_ceil(self.spec_height() as nat, pow2(l as nat)) as u32,
                    },
            ).reverse(),
    {
        let n = self.resolution_levels;
        let mut scale_factors: Vec<u32> = Vec::new();
        let mut sizes: Vec<SizeEntry> = Vec::new();
        let mut l: u8 = 0;
        let ghost sf_spec = Seq::new(n as nat, |l: int| pow2(l as nat) as u32);
        let ghost sz_spec = Seq::new(
            n as nat,
            |l: int|
                SizeEntry {
                    width: div_ceil(self.width as nat, pow2(l as nat)) as u32,
                    height: div_ceil(self.height as nat, pow2(l as nat)) as u32,
                },
        );
        while l < n
            invariant
                n == self.resolution_levels,
                n <= 32,
                sf_spec == Seq::new(n as nat, |l: int| pow2(l as nat) as u32),
                sz_spec == Seq::new(
                    n as nat,
                    |l: int|
                        SizeEntry {
                            width: div_ceil(self.width as nat, pow2(l as nat)) as u32,
                            height: div_ceil(self.height as nat, pow2(l as nat)) as u32,
                        },
                ),
                l <= n,
                scale_factors@ == sf_spec.take(l as int),
                sizes@ == sz_spec.take(l as int).reverse(),
            decreases n - l,
        {
            let f = pow2_u32(l as u32);
            let w = ((self.width as u64 + f as u64 - 1) / f as u64) as u32;
            let h = ((self.height as u64 + f as u64 - 1) / f as u64) as u32;
            proof {
                assert((self.width + f - 1) / (f as int) <= self.width) by (nonlinear_arith)
                    requires
                        f >= 1,
                ;
                assert((self.height + f - 1) / (f as int) <= self.height) by (nonlinear_arith)
                    requires
                        f >= 1,
                ;
            }
            scale_factors.push(f);
            sizes.insert(0, SizeEntry { width: w, height: h });
            proof {
                assert(pow2(l as nat) == f as nat);
                assert((pow2(l as nat) as u32) == f);
                assert(sf_spec[l as int] == f);
                assert(scale_factors@ =~= sf_spec.take(l + 1));
                assert(sz_spec[l as int] == SizeEntry { width: w, height: h });
                let t0 = sz_spec.take(l as int);
                let t1 = sz_spec.take(l + 1);
                assert(t1 =~= t0.push(sz_spec[l as int]));
                assert(sizes@ =~= t1.reverse());
            }
            l += 1;
        }
        assert(sf_spec.take(n as int) =~= sf_spec);
        assert(sz_spec.take(n as int) =~= sz_spec);
        let tiles = vec![
            TileSet {
                width: self.tile.0,
                height: if self.tile.1 == self.tile.0 {
                    None
                } else {
                    Some(self.tile.1)
                },
                scale_factors,
            },
        ];
        ImageDescription { width: self.width, height: self.height, tiles, sizes }
    }

    /// Serving advice: a large codestream with a single resolution level
    /// decodes the full image for zoomed-out requests.
    pub fn advisories(&self) -> (v: Vec<String>)
        ensures
            v@.len() == (if self.spec_resolution_levels() <= 1 && self.spec_width()
                * self.spec_height() > 4_000_000 {
                1int
            } else {
                0int
            }),
            v@.len() == 1 ==> v@[0]@
                == "large JP2 with a single resolution level: zoomed-out requests decode the full image. Re-encode with resolution levels, e.g.: opj_compress -n 6"@,
    {
        let mut v: Vec<String> = Vec::new();
        assert((self.width as u64) * (self.height as u64) <= 0xFFFF_FFFFu64 * 0xFFFF_FFFFu64)
            by (nonlinear_arith)
            requires
                self.width <= 0xFFFF_FFFFu32,
                self.height <= 0xFFFF_FFFFu32,
        ;
        if self.resolution_levels <= 1 && (self.width as u64) * (self.height as u64) > 4_000_000 {
            v.push(
                "large JP2 with a single resolution level: zoomed-out requests decode the full image. Re-encode with resolution levels, e.g.: opj_compress -n 6".to_string(),
            );
        }
        v
    }

    /// The decode decisions for `crop` at an output width of `out_w`: the
    /// resolution halvings to skip and the scaled rectangle that covers the
    /// crop at that resolution (whose size the output buffer takes).
    pub fn decode_geometry(&self, crop: CropRect, out_w: u32) -> (r: (u8, CropRect))
        requires
            self.spec_resolution_levels() >= 1,
        ensures
            r.0 == halvings_for((self.spec_resolution_levels() - 1) as nat, crop.w, out_w),
            r.1 == covering_rect(crop, pow2(if r.0 <= 31 {
                r.0 as nat
            } else {
                31
            })),
    {
        let levels = self.levels_for(crop.w, out_w);
        let shift: u32 = if levels <= 31 {
            levels as u32
        } else {
            31
        };
        let denom = pow2_u32(shift);
        (levels, scaled_covering(crop, denom))
    }
}

} // verus!
