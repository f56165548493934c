use iiif_core::eval::evaluate;
use iiif_core::grammar::{Component, ImageRequest, SizeKind};
use iiif_core::info::Limits;
use iiif_core::v2::{canonical_path, formats, parse_image_request, qualities, supports_beyond_level2};

fn limits() -> Limits {
    Limits { width: 4000, height: 4000, area: 16_000_000 }
}

#[test]
fn full_aliases_max() {
    let parsed = parse_image_request("full/full/0/default.jpg").unwrap();
    assert_eq!(parsed.request.size.kind, SizeKind::Max);
    let parsed = parse_image_request("full/max/0/default.jpg").unwrap();
    assert_eq!(parsed.request.size.kind, SizeKind::Max);
}

#[test]
fn size_above_full_upscales_without_caret() {
    let parsed = parse_image_request("full/1500,/0/default.jpg").unwrap();
    let plan = evaluate(&parsed.request, 1000, 800, limits()).unwrap();
    assert_eq!((plan.out_w, plan.out_h), (1500, 1200));
    let parsed = parse_image_request("full/pct:150/0/default.jpg").unwrap();
    let plan = evaluate(&parsed.request, 1000, 800, limits()).unwrap();
    assert_eq!((plan.out_w, plan.out_h), (1500, 1200));
}

#[test]
fn caret_is_not_v2() {
    parse_image_request("full/^max/0/default.jpg").unwrap_err();
    parse_image_request("full/^150,/0/default.jpg").unwrap_err();
}

#[test]
fn distorted_wh_is_the_only_non_aspect_form() {
    let parsed = parse_image_request("full/300,300/0/default.jpg").unwrap();
    assert!(!parsed.aspect_preserved);
    let parsed = parse_image_request("full/!300,300/0/default.jpg").unwrap();
    assert!(parsed.aspect_preserved);
}

#[test]
fn canonical_uses_v2_spellings() {
    let parsed = parse_image_request("full/400,/0/default.jpg").unwrap();
    let plan = evaluate(&parsed.request, 1000, 800, limits()).unwrap();
    assert_eq!(canonical_path(&plan, &parsed), "full/400,/0/default.jpg");

    let parsed = parse_image_request("100,100,300,300/300,300/90/gray.png").unwrap();
    let plan = evaluate(&parsed.request, 1000, 800, limits()).unwrap();
    assert_eq!(canonical_path(&plan, &parsed), "100,100,300,300/300,300/90/gray.png");

    let parsed = parse_image_request("full/full/0/default.jpg").unwrap();
    let plan = evaluate(&parsed.request, 1000, 800, limits()).unwrap();
    assert_eq!(canonical_path(&plan, &parsed), "full/full/0/default.jpg");
}

#[test]
fn size_errors_come_first_and_name_the_size() {
    let err = parse_image_request("nope/^max/0/default.jpg").unwrap_err();
    assert_eq!(err.component, Component::Size);
    assert_eq!(err.input, "^max");
    let err = parse_image_request("nope/max/0/default.jpg").unwrap_err();
    assert_eq!(err.component, Component::Region);
    let err = parse_image_request("full/max/0").unwrap_err();
    assert_eq!(err.component, Component::Structure);
}

#[test]
fn profile_lists() {
    assert_eq!(formats(), vec!["gif", "jp2", "jpg", "pdf", "png", "tif", "webp"]);
    assert_eq!(qualities(), vec!["default", "color", "gray", "bitonal"]);
    assert!(supports_beyond_level2().contains(&"sizeAboveFull"));
}

#[test]
fn v2_requests_are_v3_requests() {
    for (path, printed) in [
        ("full/pct:150/0/default.jpg", "full/^pct:150/0/default.jpg"),
        ("0,0,10,10/full/!90/gray.png", "0,0,10,10/max/!90/gray.png"),
        ("square/20,/45.5/bitonal.gif", "square/^20,/45.5/bitonal.gif"),
        ("full/!200,100/0/color.tif", "full/^!200,100/0/color.tif"),
    ] {
        let request = parse_image_request(path).unwrap().request;
        assert_eq!(request.to_string(), printed);
        assert_eq!(ImageRequest::parse(&request.to_string()).unwrap(), request);
    }
}
