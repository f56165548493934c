//! The Image API 2.1 surface, read into the 3.0 request type.
//!
//! v2 requests parse into the same [`ImageRequest`] the engine evaluates;
//! only the size grammar and the document/canonical spellings differ:
//! `full` and `max` alias the maximal size, there is no `^` prefix, and every
//! numeric size may upscale (`sizeAboveFull`), bounded by the published
//! limits at evaluation.

use vstd::prelude::*;
use crate::eval::{Plan, canonical_region_text, push_canonical_region};
use crate::grammar::{
    Component, Format, ImageRequest, ParseError, Quality, Region, Rotation, Size, SizeKind,
    spec_format, spec_quality, spec_region, spec_rotation, spec_size, spec_size_kind, starts_with,
    quality_text, format_text, rotation_text, push_rotation, push_str, range_is,
    range_starts_with, split_range, rfind_in_range,
};
use crate::text::{chars_of, find_last, lemma_find_last, nat_text, push_char, push_u64, split_on};

verus! {

/// A parsed v2.1 request plus what the v2 canonical form needs to remember
/// about how the size was spelled.
#[derive(Debug, Clone, Copy, PartialEq, Eq, Structural)]
#[non_exhaustive]
pub struct V2Request {
    /// The request mapped onto v3 semantics.
    pub request: ImageRequest,
    /// v2 canonical size is `w,` for aspect-preserving forms, `w,h` for the
    /// distorted form, `full` for the full-size aliases.
    pub aspect_preserved: bool,
    /// Whether the size was a full-size alias (`full`, `max`).
    pub was_full: bool,
}

/// The v3 size a v2.1 size segment denotes, with its
/// `(aspect_preserved, was_full)` flags: no `^`; `full` and `max` are the
/// maximal size; `pct:n` may exceed 100; every numeric form may upscale.
pub open spec fn spec_v2_size(s: Seq<char>) -> Option<(Size, bool, bool)> {
    if s.len() > 0 && s[0] == '^' {
        None
    } else if s == "full"@ || s == "max"@ {
        Some((Size { upscale: false, kind: SizeKind::Max }, true, true))
    } else {
        let kind = if starts_with(s, "pct:"@) {
            spec_size_kind(s, true)
        } else {
            match spec_size(s) {
                Some(size) => Some(size.kind),
                None => None,
            }
        };
        match kind {
            Some(k) => Some((Size { upscale: true, kind: k }, !(k is WidthHeight), false)),
            None => None,
        }
    }
}

/// The v2 request a path suffix denotes, or the component that rejects it
/// together with its text. The size is checked before the other
/// components.
pub open spec fn spec_v2_request(s: Seq<char>) -> Result<V2Request, (Component, Seq<char>)> {
    let segs = split_on(s, '/');
    if segs.len() != 4 {
        Err((Component::Structure, s))
    } else {
        match find_last(segs[3], '.') {
            None => Err((Component::Structure, s)),
            Some(i) => {
                let q = segs[3].take(i as int);
                let f = segs[3].skip(i as int + 1);
                match spec_v2_size(segs[1]) {
                    None => Err((Component::Size, segs[1])),
                    Some((size, aspect_preserved, was_full)) => match spec_region(segs[0]) {
                        None => Err((Component::Region, segs[0])),
                        Some(region) => match spec_rotation(segs[2]) {
                            None => Err((Component::Rotation, segs[2])),
                            Some(rotation) => match spec_quality(q) {
                                None => Err((Component::Quality, q)),
                                Some(quality) => match spec_format(f) {
                                    None => Err((Component::Format, f)),
                                    Some(format) => Ok(
                                        V2Request {
                                            request: ImageRequest {
                                                region,
                                                size,
                                                rotation,
                                                quality,
                                                format,
                                            },
                                            aspect_preserved,
                                            was_full,
                                        },
                                    ),
                                },
                            },
                        },
                    },
                }
            },
        }
    }
}

/// Parses a v2.1 size segment into its v3 equivalent and the
/// `(aspect_preserved, was_full)` flags.
///
/// # Errors
///
/// A [`ParseError`] naming [`Component::Size`] for any form v2.1 does not
/// define, including the v3-only `^` upscale prefix.
fn parse_size(input: &str) -> (r: Result<(Size, bool, bool), ParseError>)
    ensures
        match r {
            Ok(x) => spec_v2_size(input@) == Some(x),
            Err(e) => spec_v2_size(input@) is None && e.component == Component::Size && e.input@
                == input@,
        },
{
    let v = chars_of(input);
    let n = v.len();
    assert(v@.subrange(0, n as int) =~= v@);
    if n > 0 && v[0] == '^' {
        return Err(ParseError::new(Component::Size, input));
    }
    if range_is(&v, 0, n, "full") || range_is(&v, 0, n, "max") {
        return Ok((Size { upscale: false, kind: SizeKind::Max }, true, true));
    }
    let parsed = if range_starts_with(&v, 0, n, "pct:") {
        let mut spelled = String::new();
        push_char(&mut spelled, '^');
        push_str(&mut spelled, input);
        proof {
            assert(spelled@.drop_first() =~= input@);
        }
        Size::parse(spelled.as_str())
    } else {
        Size::parse(input)
    };
    match parsed {
        Ok(size) => {
            let aspect = match size.kind {
                SizeKind::WidthHeight(..) => false,
                _ => true,
            };
            Ok((Size { upscale: true, kind: size.kind }, aspect, false))
        },
        Err(_) => Err(ParseError::new(Component::Size, input)),
    }
}

/// Parses the v2.1 `{region}/{size}/{rotation}/{quality}.{format}` suffix.
///
/// # Errors
///
/// A [`ParseError`] (HTTP 400) exactly like the v3 grammar, naming the
/// size first when it fails.
pub fn parse_image_request(path: &str) -> (r: Result<V2Request, ParseError>)
    ensures
        match r {
            Ok(x) => spec_v2_request(path@) == Ok::<V2Request, (Component, Seq<char>)>(x),
            Err(e) => spec_v2_request(path@) == Err::<V2Request, (Component, Seq<char>)>(
                (e.component, e.input@),
            ),
        },
{
    let v = chars_of(path);
    let n = v.len();
    assert(v@.subrange(0, n as int) =~= v@);
    let segs = split_range(&v, 0, n, '/');
    if segs.len() != 4 {
        return Err(ParseError::new(Component::Structure, path));
    }
    let (lo, hi) = segs[3];
    let dot = rfind_in_range(&v, lo, hi, '.');
    proof {
        lemma_find_last(v@.subrange(lo as int, hi as int), '.');
    }
    let dot = match dot {
        Some(d) => d,
        None => {
            return Err(ParseError::new(Component::Structure, path));
        },
    };
    proof {
        let last = v@.subrange(lo as int, hi as int);
        assert(last.take(dot - lo) =~= v@.subrange(lo as int, dot as int));
        assert(last.skip(dot - lo + 1) =~= v@.subrange(dot + 1, hi as int));
    }
    let (size, aspect_preserved, was_full) = parse_size(
        path.substring_char(segs[1].0, segs[1].1),
    )?;
    let region = Region::parse(path.substring_char(segs[0].0, segs[0].1))?;
    let rotation = Rotation::parse(path.substring_char(segs[2].0, segs[2].1))?;
    let quality = Quality::parse(path.substring_char(lo, dot))?;
    let format = Format::parse(path.substring_char(dot + 1, hi))?;
    Ok(
        V2Request {
            request: ImageRequest { region, size, rotation, quality, format },
            aspect_preserved,
            was_full,
        },
    )
}

/// The v2 canonical size: `full` for a full-size alias over the whole image
/// that does not upscale, else `w,` when the aspect was preserved, else
/// `w,h`.
pub open spec fn v2_canonical_size_text(plan: Plan, v2: V2Request) -> Seq<char> {
    if v2.was_full && plan.spec_is_full_region() && !plan.upscales {
        "full"@
    } else if v2.aspect_preserved {
        nat_text(plan.out_w as nat) + seq![',']
    } else {
        nat_text(plan.out_w as nat) + seq![','] + nat_text(plan.out_h as nat)
    }
}

/// The v2.1 canonical request path.
pub open spec fn v2_canonical_text(plan: Plan, v2: V2Request) -> Seq<char> {
    canonical_region_text(plan) + seq!['/'] + v2_canonical_size_text(plan, v2) + seq!['/']
        + rotation_text(Rotation { mirror: plan.mirror, degrees: plan.degrees }) + seq!['/']
        + quality_text(plan.quality) + seq!['.'] + format_text(plan.format)
}

/// Appends the v2 canonical size.
fn push_v2_size(s: &mut String, plan: &Plan, v2: &V2Request)
    ensures
        final(s)@ == old(s)@ + v2_canonical_size_text(*plan, *v2),
{
    if v2.was_full && plan.is_full_region() && !plan.upscales {
        push_str(s, "full");
    } else if v2.aspect_preserved {
        push_u64(s, plan.out_w as u64);
        push_char(s, ',');
    } else {
        push_u64(s, plan.out_w as u64);
        push_char(s, ',');
        push_u64(s, plan.out_h as u64);
    }
    assert(s@ =~= old(s)@ + v2_canonical_size_text(*plan, *v2));
}

/// The v2 canonical request path: region `full` or pixels; size `full`,
/// `w,` (aspect preserved) or `w,h`; rotation and quality as literals.
pub fn canonical_path(plan: &Plan, v2: &V2Request) -> (s: String)
    ensures
        s@ == v2_canonical_text(*plan, *v2),
{
    let mut s = String::new();
    push_canonical_region(&mut s, plan);
    push_char(&mut s, '/');
    push_v2_size(&mut s, plan, v2);
    push_char(&mut s, '/');
    let rotation = Rotation { mirror: plan.mirror, degrees: plan.degrees };
    push_rotation(&mut s, &rotation);
    push_char(&mut s, '/');
    push_str(&mut s, plan.quality.as_str());
    push_char(&mut s, '.');
    push_str(&mut s, plan.format.as_str());
    assert(s@ =~= v2_canonical_text(*plan, *v2));
    s
}

/// The v2 `@context` URI.
pub const CONTEXT_V2: &'static str = "http://iiif.io/api/image/2/context.json";

/// The v2 level-2 profile document URI.
pub const LEVEL2_V2: &'static str = "http://iiif.io/api/image/2/level2.json";

/// Named v2.1 features supported beyond level 2, from the official
/// compliance document.
pub fn supports_beyond_level2() -> (v: Vec<&'static str>)
    ensures
        v@.len() == 6,
        v@[0]@ == "canonicalLinkHeader"@,
        v@[1]@ == "mirroring"@,
        v@[2]@ == "profileLinkHeader"@,
        v@[3]@ == "regionSquare"@,
        v@[4]@ == "rotationArbitrary"@,
        v@[5]@ == "sizeAboveFull"@,
{
    let mut v: Vec<&'static str> = Vec::new();
    v.push("canonicalLinkHeader");
    v.push("mirroring");
    v.push("profileLinkHeader");
    v.push("regionSquare");
    v.push("rotationArbitrary");
    v.push("sizeAboveFull");
    v
}

/// Output formats published in the profile — the complete table.
pub fn formats() -> (v: Vec<&'static str>)
    ensures
        v@.len() == 7,
        v@[0]@ == "gif"@,
        v@[1]@ == "jp2"@,
        v@[2]@ == "jpg"@,
        v@[3]@ == "pdf"@,
        v@[4]@ == "png"@,
        v@[5]@ == "tif"@,
        v@[6]@ == "webp"@,
{
    let mut v: Vec<&'static str> = Vec::new();
    v.push("gif");
    v.push("jp2");
    v.push("jpg");
    v.push("pdf");
    v.push("png");
    v.push("tif");
    v.push("webp");
    v
}

/// Qualities, all four, always.
pub fn qualities() -> (v: Vec<&'static str>)
    ensures
        v@.len() == 4,
        v@[0]@ == "default"@,
        v@[1]@ == "color"@,
        v@[2]@ == "gray"@,
        v@[3]@ == "bitonal"@,
{
    let mut v: Vec<&'static str> = Vec::new();
    v.push("default");
    v.push("color");
    v.push("gray");
    v.push("bitonal");
    v
}

} // verus!
