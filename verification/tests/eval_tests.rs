use iiif_core::eval::{evaluate, CropRect, EvalError, Plan};
use iiif_core::grammar::{Decimal, Format, ImageRequest, Quality, Region, Rotation, Size, SizeKind};
use iiif_core::info::{ImageDescription, Info, Limits};

fn limits() -> Limits {
    Limits { width: 10_000, height: 10_000, area: 100_000_000 }
}

fn req(path: &str) -> ImageRequest {
    ImageRequest::parse(path).unwrap()
}

fn eval(path: &str, w: u32, h: u32) -> Result<Plan, EvalError> {
    evaluate(&req(path), w, h, limits())
}

#[test]
fn full_max_is_identity_under_limits() {
    let plan = eval("full/max/0/default.jpg", 6000, 4000).unwrap();
    assert_eq!(plan.crop, CropRect { x: 0, y: 0, w: 6000, h: 4000 });
    assert_eq!((plan.out_w, plan.out_h), (6000, 4000));
    assert!(!plan.upscales);
    assert_eq!(plan.canonical_path(), "full/max/0/default.jpg");
}

#[test]
fn max_respects_area_limit() {
    let limits = Limits { width: 20_000, height: 20_000, area: 100_000_000 };
    let plan = evaluate(&req("full/max/0/default.jpg"), 20_000, 20_000, limits).unwrap();
    assert_eq!((plan.out_w, plan.out_h), (10_000, 10_000));
}

#[test]
fn square_centers() {
    let plan = eval("square/max/0/default.jpg", 6000, 4000).unwrap();
    assert_eq!(plan.crop, CropRect { x: 1000, y: 0, w: 4000, h: 4000 });
}

#[test]
fn region_clips_at_edges() {
    let plan = eval("5000,3000,2000,2000/max/0/default.jpg", 6000, 4000).unwrap();
    assert_eq!(plan.crop, CropRect { x: 5000, y: 3000, w: 1000, h: 1000 });
    assert!(plan.canonical_path().starts_with("5000,3000,1000,1000/"));
}

#[test]
fn region_outside_is_400() {
    assert_eq!(
        eval("6000,0,10,10/max/0/default.jpg", 6000, 4000).unwrap_err(),
        EvalError::RegionOutOfBounds
    );
    assert_eq!(
        eval("0,4000,10,10/max/0/default.jpg", 6000, 4000).unwrap_err(),
        EvalError::RegionOutOfBounds
    );
    assert_eq!(
        eval("pct:99.999,0,0.001,1/max/0/default.jpg", 60, 40).unwrap_err(),
        EvalError::RegionOutOfBounds
    );
}

#[test]
fn percent_region_resolves() {
    let plan = eval("pct:25,25,50,50/max/0/default.jpg", 6000, 4000).unwrap();
    assert_eq!(plan.crop, CropRect { x: 1500, y: 1000, w: 3000, h: 2000 });
}

#[test]
fn width_scales_aspect() {
    let plan = eval("full/300,/0/default.jpg", 6000, 4000).unwrap();
    assert_eq!((plan.out_w, plan.out_h), (300, 200));
    assert_eq!(plan.canonical_path(), "full/300,200/0/default.jpg");
}

#[test]
fn upscale_without_flag_is_400() {
    assert_eq!(
        eval("full/7000,/0/default.jpg", 6000, 4000).unwrap_err(),
        EvalError::UpscaleWithoutFlag
    );
    assert_eq!(
        eval("full/7000,5000/0/default.jpg", 6000, 4000).unwrap_err(),
        EvalError::UpscaleWithoutFlag
    );
}

#[test]
fn upscale_with_flag_works() {
    let plan = eval("full/^7500,/0/default.jpg", 6000, 4000).unwrap();
    assert_eq!((plan.out_w, plan.out_h), (7500, 5000));
    assert!(plan.upscales);
    assert_eq!(plan.canonical_path(), "full/^7500,5000/0/default.jpg");
}

#[test]
fn upscale_beyond_limits_is_400() {
    assert_eq!(
        eval("full/^20000,/0/default.jpg", 6000, 4000).unwrap_err(),
        EvalError::ExceedsLimits
    );
}

#[test]
fn caret_max_scales_to_limits() {
    let plan = eval("full/^max/0/default.jpg", 500, 250).unwrap();
    assert_eq!((plan.out_w, plan.out_h), (10_000, 5_000));
    assert!(plan.upscales);
    assert_eq!(plan.canonical_path(), "full/^max/0/default.jpg");
}

#[test]
fn confined_fits_inside_box() {
    let plan = eval("full/!300,300/0/default.jpg", 6000, 4000).unwrap();
    assert_eq!((plan.out_w, plan.out_h), (300, 200));
    assert_eq!(
        eval("full/!9000,9000/0/default.jpg", 6000, 4000).unwrap_err(),
        EvalError::UpscaleWithoutFlag
    );
    let plan = eval("full/^!9000,9000/0/default.jpg", 6000, 4000).unwrap();
    assert_eq!((plan.out_w, plan.out_h), (9000, 6000));
}

#[test]
fn percent_size() {
    let plan = eval("full/pct:50/0/default.jpg", 6000, 4000).unwrap();
    assert_eq!((plan.out_w, plan.out_h), (3000, 2000));
    let plan = eval("full/^pct:150/0/default.jpg", 6000, 4000).unwrap();
    assert_eq!((plan.out_w, plan.out_h), (9000, 6000));
}

#[test]
fn below_one_pixel_is_400() {
    assert_eq!(
        eval("full/pct:0.001/0/default.jpg", 600, 400).unwrap_err(),
        EvalError::BelowOnePixel
    );
}

#[test]
fn distorted_wh_allowed() {
    let plan = eval("full/300,300/0/default.jpg", 6000, 4000).unwrap();
    assert_eq!((plan.out_w, plan.out_h), (300, 300));
}

#[test]
fn rotation_normalized() {
    let plan = eval("full/max/360/default.jpg", 600, 400).unwrap();
    assert_eq!(plan.degrees, Decimal::new(0, 0).unwrap());
    assert_eq!(plan.canonical_path(), "full/max/0/default.jpg");
    let plan = eval("full/max/!90/default.jpg", 600, 400).unwrap();
    assert!(plan.mirror);
    assert_eq!(plan.canonical_path(), "full/max/!90/default.jpg");
}

#[test]
fn canonical_keeps_quality_and_format() {
    let plan = eval("square/!100,100/270/bitonal.png", 6000, 4000).unwrap();
    assert_eq!(plan.format, Format::Png);
    assert_eq!(plan.canonical_path(), "1000,0,4000,4000/100,100/270/bitonal.png");
}

#[test]
fn empty_image_regions_are_out_of_bounds() {
    assert_eq!(eval("full/max/0/default.jpg", 0, 400).unwrap_err(), EvalError::RegionOutOfBounds);
    assert_eq!(eval("square/max/0/default.jpg", 600, 0).unwrap_err(), EvalError::RegionOutOfBounds);
}

#[test]
fn height_scales_aspect_and_rounds_half_up() {
    // 4000 × 150/6000 … = 100 exactly; 333 × 100/1000 = 33.3 → 33; 35 × 100/1000 = 3.5 → 4.
    let plan = eval("full/,100/0/default.jpg", 6000, 4000).unwrap();
    assert_eq!((plan.out_w, plan.out_h), (150, 100));
    let plan = eval("0,0,1000,35/100,/0/default.jpg", 6000, 4000).unwrap();
    assert_eq!((plan.out_w, plan.out_h), (100, 4));
}

#[test]
fn canonical_path_reevaluates_to_the_same_plan() {
    for path in [
        "square/!100,100/270/bitonal.png",
        "pct:25,25,50,50/^max/!22.5/gray.webp",
        "5000,3000,2000,2000/pct:50/90/default.tif",
        "full/^7500,/0/color.gif",
        "0,0,10000,10000/!300,300/!90/default.jpg",
        "full/^pct:150/360/color.png",
    ] {
        let plan = eval(path, 6000, 4000).unwrap();
        let again = eval(&plan.canonical_path(), 6000, 4000).unwrap();
        assert_eq!(again, plan, "{path}");
        assert_eq!(again.canonical_path(), plan.canonical_path());
    }
}

#[test]
fn plan_stays_within_limits() {
    let limits = Limits { width: 300, height: 200, area: 50_000 };
    let plan = evaluate(&req("full/^max/0/default.jpg"), 6000, 4000, limits).unwrap();
    assert!(plan.out_w <= 300 && plan.out_h <= 200);
    assert!(u64::from(plan.out_w) * u64::from(plan.out_h) <= 50_000);
    assert!(plan.out_w >= 1 && plan.out_h >= 1);
}

#[test]
fn error_messages_and_status() {
    assert_eq!(EvalError::RegionOutOfBounds.to_string(), "region is outside the image bounds");
    assert_eq!(
        EvalError::UpscaleWithoutFlag.to_string(),
        "requested size exceeds the extracted region (use the ^ prefix)"
    );
    assert_eq!(EvalError::BelowOnePixel.to_string(), "scaled size is below one pixel");
    assert_eq!(EvalError::ExceedsLimits.to_string(), "scaled size exceeds the published limits");
    assert_eq!(EvalError::ExceedsLimits.http_status(), 400);
}


#[test]
fn published_limits_hold() {
    let limits = Limits { width: 500, height: 400, area: 120_000 };
    let description = ImageDescription { width: 6000, height: 4000, tiles: vec![], sizes: vec![] };
    let info = Info::new("https://x/iiif/3/a".to_string(), &description, limits);
    for path in ["full/^max/0/default.jpg", "full/max/0/default.jpg", "square/^max/90/gray.png"] {
        let plan = evaluate(&req(path), 6000, 4000, limits).unwrap();
        assert!(plan.out_w <= info.max_width && plan.out_h <= info.max_height, "{path}");
        assert!(u64::from(plan.out_w) * u64::from(plan.out_h) <= info.max_area, "{path}");
    }
    assert_eq!(
        evaluate(&req("full/600,/0/default.jpg"), 6000, 4000, limits),
        Err(EvalError::ExceedsLimits)
    );
}

#[test]
fn canonical_form_is_a_fixed_point_for_built_requests() {
    let limits = Limits { width: 8192, height: 8192, area: 67_108_864 };
    let built = ImageRequest {
        region: Region::Pixels { x: 100, y: 50, width: 5000, height: 400 },
        size: Size { upscale: false, kind: SizeKind::Width(512) },
        rotation: Rotation { mirror: true, degrees: Decimal::new(450, 0).unwrap() },
        quality: Quality::Gray,
        format: Format::Png,
    };
    let plan = evaluate(&built, 1024, 768, limits).unwrap();
    let canonical = plan.canonical_path();
    let again = evaluate(&ImageRequest::parse(&canonical).unwrap(), 1024, 768, limits).unwrap();
    assert_eq!(again.canonical_path(), canonical);
    assert_eq!((again.crop, again.out_w, again.out_h), (plan.crop, plan.out_w, plan.out_h));
    let a = evaluate(&ImageRequest::parse("full/512,/0/default.jpg").unwrap(), 1024, 768, limits).unwrap();
    let b = evaluate(&ImageRequest::parse("full/512,384/0/default.jpg").unwrap(), 1024, 768, limits)
        .unwrap();
    assert_eq!(a.canonical_path(), "full/512,384/0/default.jpg");
    assert_eq!(b.canonical_path(), "full/512,384/0/default.jpg");
}
