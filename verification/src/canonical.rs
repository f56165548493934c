//! The canonical form of an evaluated request is a request in its own
//! right, and it asks for the same image: re-evaluating it against the same
//! image and limits decides the same crop, output size and transform.

use vstd::prelude::*;
use crate::eval::{
    canonical_text, lemma_evaluate_bounds, max_side, min_nat, normalized_degrees, plan_matches,
    raw_size, sat_u32, spec_evaluate, spec_resolve_region, spec_resolve_size, CropRect, Plan,
};
use crate::grammar::{
    dec_gt, spec_request, Component, Decimal, ImageRequest, Region, Rotation, Size, SizeKind,
};
use crate::info::Limits;
use crate::spelling::{decimal_ok, lemma_request_roundtrip, request_valid};
use crate::text::pow10;

verus! {

/// The request a plan's canonical path spells: the crop (or `full`), the
/// exact output size (or `max`, flagged `^` when the plan upscales), the
/// normalized rotation, and the same quality and format.
pub open spec fn canonical_request(p: Plan) -> ImageRequest {
    ImageRequest {
        region: if p.spec_is_full_region() {
            Region::Full
        } else {
            Region::Pixels { x: p.crop.x, y: p.crop.y, width: p.crop.w, height: p.crop.h }
        },
        size: Size {
            upscale: p.upscales,
            kind: if p.size_was_max {
                SizeKind::Max
            } else {
                SizeKind::WidthHeight(p.out_w, p.out_h)
            },
        },
        rotation: Rotation { mirror: p.mirror, degrees: p.degrees },
        quality: p.quality,
        format: p.format,
    }
}

/// Reducing an angle modulo 360 keeps it a normalized, bounded decimal of
/// less than 360 degrees, and reducing it again changes nothing.
pub proof fn lemma_normalized_degrees(d: Decimal)
    requires
        decimal_ok(d),
    ensures
        decimal_ok(normalized_degrees(d)),
        !dec_gt(normalized_degrees(d), 360),
        normalized_degrees(normalized_degrees(d)) == normalized_degrees(d),
{
    let s = d.scale_of();
    let n = d.num();
    crate::spelling::lemma_pow10_pos(s);
    let m = 360 * pow10(s);
    let r = n % m;
    assert(r <= n) by (nonlinear_arith)
        requires
            r == n % m,
            m > 0,
    ;
    Decimal::lemma_of_parts(r, s);
    let e = normalized_degrees(d);
    assert(e.num() == r && e.scale_of() == s);
    if s > 0 {
        let k = pow10((s - 1) as nat);
        crate::spelling::lemma_pow10_pos((s - 1) as nat);
        assert(pow10(s) == 10 * k);
        assert(m == 10 * (360 * k)) by (nonlinear_arith)
            requires
                m == 360 * pow10(s),
                pow10(s) == 10 * k,
        ;
        vstd::arithmetic::div_mod::lemma_mod_mod(n as int, 10, (360 * k) as int);
    }
    assert(r % m == r) by {
        vstd::arithmetic::div_mod::lemma_mod_twice(n as int, m as int);
    }
    Decimal::lemma_of_parts(r % m, s);
    e.lemma_of();
}

/// The canonical region re-resolves to the plan's crop.
proof fn lemma_canonical_region(p: Plan, fw: u32, fh: u32)
    requires
        1 <= p.crop.w,
        1 <= p.crop.h,
        p.crop.x + p.crop.w <= fw,
        p.crop.y + p.crop.h <= fh,
        p.full_w == fw,
        p.full_h == fh,
    ensures
        spec_resolve_region(canonical_request(p).region, fw, fh) == Ok::<CropRect, crate::eval::EvalError>(p.crop),
{
    if !p.spec_is_full_region() {
        assert(min_nat(p.crop.w as nat, (fw - p.crop.x) as nat) == p.crop.w);
        assert(min_nat(p.crop.h as nat, (fh - p.crop.y) as nat) == p.crop.h);
    }
}

/// One side of `max` computed without `^` equals the side computed with
/// it, whenever the latter does not exceed the region.
proof fn lemma_max_side_flag(own: nat, other: nat, own_limit: nat, other_limit: nat, area: nat)
    requires
        own <= u32::MAX,
        sat_u32(max_side(own, other, own_limit, other_limit, area, true)) <= own,
    ensures
        sat_u32(max_side(own, other, own_limit, other_limit, area, false)) == sat_u32(
            max_side(own, other, own_limit, other_limit, area, true),
        ),
{
}

/// The canonical size re-resolves to the plan's output size and
/// upscaling, given the size the plan came from.
proof fn lemma_canonical_size(p: Plan, size: Size, limits: Limits)
    requires
        1 <= p.crop.w,
        1 <= p.crop.h,
        spec_resolve_size(size, p.crop.w, p.crop.h, limits) == Ok::<
            (u32, u32, bool),
            crate::eval::EvalError,
        >((p.out_w, p.out_h, p.upscales)),
        p.size_was_max == (size.kind is Max),
        p.upscales == (p.out_w > p.crop.w || p.out_h > p.crop.h),
        !size.upscale ==> p.out_w <= p.crop.w && p.out_h <= p.crop.h,
    ensures
        spec_resolve_size(canonical_request(p).size, p.crop.w, p.crop.h, limits) == Ok::<
            (u32, u32, bool),
            crate::eval::EvalError,
        >((p.out_w, p.out_h, p.upscales)),
{
    let rw = p.crop.w as nat;
    let rh = p.crop.h as nat;
    let c = canonical_request(p).size;
    if p.size_was_max {
        let lw = limits.width as nat;
        let lh = limits.height as nat;
        let la = limits.area as nat;
        if size.upscale != p.upscales {
            // With `^` but without upscaling: each side already fits the
            // region, so dropping the flag changes nothing.
            assert(size.upscale && !p.upscales);
            let a = max_side(rw, rh, lw, lh, la, true);
            let b = max_side(rh, rw, lh, lw, la, true);
            assert(raw_size(size, rw, rh, limits) == Ok::<(nat, nat), crate::eval::EvalError>((a, b)));
            assert(p.out_w == sat_u32(a) && p.out_h == sat_u32(b));
            lemma_max_side_flag(rw, rh, lw, lh, la);
            lemma_max_side_flag(rh, rw, lh, lw, la);
        }
    }
}

/// The canonical form of a plan is a request that reads back from its own
/// spelling and, evaluated against the same image and limits, decides the
/// same crop, output size, upscaling and transform: the canonical link of
/// a response names the same image. This holds of any request that
/// evaluates, however its fields were built (its angle a decimal within the
/// bounds every `Decimal` keeps), so the canonical form is a fixed point and
/// equivalent spellings share it.
pub proof fn lemma_canonical_is_stable(
    request: ImageRequest,
    full_w: u32,
    full_h: u32,
    limits: Limits,
    p: Plan,
)
    requires
        decimal_ok(request.rotation.degrees),
        spec_evaluate(request, full_w, full_h, limits) is Ok,
        plan_matches(p, request, full_w, full_h, spec_evaluate(request, full_w, full_h, limits)->Ok_0),
    ensures
        spec_request(canonical_text(p)) == Ok::<ImageRequest, (Component, Seq<char>)>(
            canonical_request(p),
        ),
        spec_evaluate(canonical_request(p), full_w, full_h, limits) == spec_evaluate(
            request,
            full_w,
            full_h,
            limits,
        ),
        plan_matches(p, canonical_request(p), full_w, full_h, spec_evaluate(request, full_w, full_h, limits)->Ok_0),
{
    let c = canonical_request(p);
    lemma_evaluate_bounds(request, full_w, full_h, limits);
    lemma_normalized_degrees(request.rotation.degrees);
    // The spelling.
    assert(canonical_text(p) =~= crate::grammar::request_text(c));
    assert(request_valid(c));
    lemma_request_roundtrip(c);
    // The evaluation.
    lemma_canonical_region(p, full_w, full_h);
    let crop = spec_resolve_region(request.region, full_w, full_h)->Ok_0;
    assert(crop == p.crop);
    lemma_canonical_size(p, request.size, limits);
}

} // verus!
