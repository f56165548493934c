use iiif_core::grammar::{
    push_decimal, Decimal, Format, ImageRequest, Quality, Region, Rotation, Size, SizeKind,
};

fn dec(digits: u64, scale: u32) -> Decimal {
    Decimal::new(digits, scale).unwrap()
}

fn region(input: &str) -> Region {
    Region::parse(input).unwrap()
}

fn size(input: &str) -> Size {
    Size::parse(input).unwrap()
}

#[test]
fn region_valid() {
    assert_eq!(region("full"), Region::Full);
    assert_eq!(region("square"), Region::Square);
    assert_eq!(region("0,0,1,1"), Region::Pixels { x: 0, y: 0, width: 1, height: 1 });
    assert_eq!(
        region("125,15,120,140"),
        Region::Pixels { x: 125, y: 15, width: 120, height: 140 }
    );
    assert_eq!(region("007,0,1,1"), Region::Pixels { x: 7, y: 0, width: 1, height: 1 });
    assert_eq!(
        region("pct:41.6,7.5,40,70"),
        Region::Percent { x: dec(416, 1), y: dec(75, 1), width: dec(40, 0), height: dec(70, 0) }
    );
    assert_eq!(
        region("pct:0,0,100,100"),
        Region::Percent { x: dec(0, 0), y: dec(0, 0), width: dec(100, 0), height: dec(100, 0) }
    );
}

#[test]
fn region_invalid() {
    for input in [
        "",
        "fully",
        "Full",
        "FULL",
        " full",
        "full ",
        "1,2,3",
        "1,2,3,4,5",
        "1,2,3,",
        ",1,2,3",
        "-1,0,1,1",
        "0,0,0,1",
        "0,0,1,0",
        "1.5,0,1,1",
        "0x1,0,1,1",
        "pct:1,2,3",
        "pct:1,2,3,4,5",
        "pct:0,0,0,100",
        "pct:0,0,100,0",
        "pct:100,0,1,1",
        "pct:0,100,1,1",
        "pct:.5,0,1,1",
        "pct:0.,0,1,1",
        "pct:+1,0,1,1",
        "pct:1e2,0,1,1",
        "pct:NaN,0,1,1",
        "pct:inf,0,1,1",
        "4294967296,0,1,1",
        "pct:-0.1,0,1,1",
    ] {
        assert!(Region::parse(input).is_err(), "should reject {input:?}");
    }
}

#[test]
fn size_valid() {
    assert_eq!(size("max"), Size { upscale: false, kind: SizeKind::Max });
    assert_eq!(size("^max"), Size { upscale: true, kind: SizeKind::Max });
    assert_eq!(size("150,"), Size { upscale: false, kind: SizeKind::Width(150) });
    assert_eq!(size("^360,"), Size { upscale: true, kind: SizeKind::Width(360) });
    assert_eq!(size(",150"), Size { upscale: false, kind: SizeKind::Height(150) });
    assert_eq!(size("pct:50"), Size { upscale: false, kind: SizeKind::Percent(dec(50, 0)) });
    assert_eq!(size("pct:100"), Size { upscale: false, kind: SizeKind::Percent(dec(100, 0)) });
    assert_eq!(size("^pct:120"), Size { upscale: true, kind: SizeKind::Percent(dec(120, 0)) });
    assert_eq!(size("225,100"), Size { upscale: false, kind: SizeKind::WidthHeight(225, 100) });
    assert_eq!(size("!225,100"), Size { upscale: false, kind: SizeKind::Confined(225, 100) });
    assert_eq!(size("^!360,360"), Size { upscale: true, kind: SizeKind::Confined(360, 360) });
}

#[test]
fn size_invalid() {
    for input in [
        "",
        "^",
        "full",
        "Max",
        "^^max",
        "pct:0",
        "pct:101",
        "pct:100.001",
        "pct:",
        "^pct:",
        "pct:-1",
        "pct:1e1",
        "0,",
        ",0",
        "0,100",
        "100,0",
        ",",
        "!,",
        "!100,",
        "!,100",
        "!0,1",
        "150",
        "^150",
        "150,,",
        ",,150",
        "1.5,",
        ",1.5",
        "%5Emax",
    ] {
        assert!(Size::parse(input).is_err(), "should reject {input:?}");
    }
}

#[test]
fn rotation_valid() {
    assert_eq!(Rotation::parse("0").unwrap(), Rotation { mirror: false, degrees: dec(0, 0) });
    assert_eq!(Rotation::parse("90").unwrap(), Rotation { mirror: false, degrees: dec(90, 0) });
    assert_eq!(Rotation::parse("360").unwrap(), Rotation { mirror: false, degrees: dec(360, 0) });
    assert_eq!(Rotation::parse("22.5").unwrap(), Rotation { mirror: false, degrees: dec(225, 1) });
    assert_eq!(Rotation::parse("!0").unwrap(), Rotation { mirror: true, degrees: dec(0, 0) });
    assert_eq!(Rotation::parse("!337.5").unwrap(), Rotation { mirror: true, degrees: dec(3375, 1) });
}

#[test]
fn rotation_invalid() {
    for input in ["", "!", "-0", "-90", "360.001", "361", "1e2", ".5", "90.", "+90", "9O"] {
        assert!(Rotation::parse(input).is_err(), "should reject {input:?}");
    }
}

#[test]
fn quarter_turns() {
    for (input, expect) in [
        ("0", true),
        ("90", true),
        ("180", true),
        ("270", true),
        ("360", true),
        ("22.5", false),
        ("90.1", false),
    ] {
        assert_eq!(Rotation::parse(input).unwrap().is_quarter_turn(), expect, "{input}");
    }
}

#[test]
fn quality_and_format() {
    assert_eq!(Quality::parse("default").unwrap(), Quality::Default);
    assert_eq!(Quality::parse("bitonal").unwrap(), Quality::Bitonal);
    Quality::parse("native").unwrap_err();
    Quality::parse("grey").unwrap_err();
    assert_eq!(Format::parse("jpg").unwrap(), Format::Jpg);
    assert_eq!(Format::parse("webp").unwrap(), Format::Webp);
    Format::parse("jpeg").unwrap_err();
    Format::parse("tiff").unwrap_err();
    Format::parse("JPG").unwrap_err();
}

#[test]
fn full_request() {
    let req = ImageRequest::parse("full/max/0/default.jpg").unwrap();
    assert_eq!(req.to_string(), "full/max/0/default.jpg");
    let req = ImageRequest::parse("125,15,120,140/90,/!345.3/gray.png").unwrap();
    assert_eq!(req.to_string(), "125,15,120,140/90,/!345.3/gray.png");
    for input in [
        "full/max/0/default",
        "full/max/0.jpg",
        "full/max/0/default.jpg/extra",
        "/full/max/0/default.jpg",
        "full/max/0/default.jpg.png",
    ] {
        assert!(ImageRequest::parse(input).is_err(), "should reject {input:?}");
    }
}

fn spell(d: Decimal) -> String {
    let mut s = String::new();
    push_decimal(&mut s, &d);
    s
}

#[test]
fn float_canonical_print() {
    assert_eq!(spell(dec(0, 0)), "0");
    assert_eq!(spell(dec(90, 0)), "90");
    assert_eq!(spell(dec(225, 1)), "22.5");
    assert_eq!(spell(dec(9, 1)), "0.9");
    assert_eq!(spell(dec(360, 0)), "360");
}

#[test]
fn decimals_are_normalized_and_bounded() {
    // Trailing fractional zeros are not a normal form.
    assert!(Decimal::new(50, 1).is_none());
    assert!(Decimal::new(5, 19).is_none());
    assert!(Decimal::new(1_000_000_000_000_000_000, 0).is_none());
    let d = Decimal::new(123, 2).unwrap();
    assert_eq!((d.digits(), d.scale()), (123, 2));
    // Parsing normalizes: 40.50 reads as 40.5.
    assert_eq!(
        region("pct:40.50,0,1,1"),
        Region::Percent { x: dec(405, 1), y: dec(0, 0), width: dec(1, 0), height: dec(1, 0) }
    );
}

#[test]
fn literal_spellings_roundtrip() {
    for path in [
        "square/^max/!22.5/color.tif",
        "pct:41.6,7.5,40,70/pct:50/0/bitonal.gif",
        "0,0,1,1/,150/180/gray.webp",
        "full/!225,100/0.05/default.pdf",
        "full/^pct:120/360/default.jp2",
    ] {
        let req = ImageRequest::parse(path).unwrap();
        assert_eq!(req.to_string(), path);
        assert_eq!(ImageRequest::parse(&req.to_string()).unwrap(), req);
    }
}

#[test]
fn parse_errors_name_the_component() {
    let err = ImageRequest::parse("full/max/0").unwrap_err();
    assert_eq!(err.to_string(), "malformed request path: \"full/max/0\"");
    let err = ImageRequest::parse("nope/max/0/default.jpg").unwrap_err();
    assert_eq!(err.to_string(), "malformed region: \"nope\"");
    let err = ImageRequest::parse("full/nope/0/default.jpg").unwrap_err();
    assert_eq!(err.to_string(), "malformed size: \"nope\"");
    let err = ImageRequest::parse("full/max/400/default.jpg").unwrap_err();
    assert_eq!(err.to_string(), "malformed rotation: \"400\"");
    let err = ImageRequest::parse("full/max/0/native.jpg").unwrap_err();
    assert_eq!(err.to_string(), "malformed quality: \"native\"");
    let err = ImageRequest::parse("full/max/0/default.bmp").unwrap_err();
    assert_eq!(err.to_string(), "malformed format: \"bmp\"");
}

#[test]
fn media_types() {
    assert_eq!(Format::Jpg.media_type(), "image/jpeg");
    assert_eq!(Format::Png.media_type(), "image/png");
    assert_eq!(Format::Pdf.media_type(), "application/pdf");
    assert_eq!(Format::Jp2.as_str(), "jp2");
    assert_eq!(Quality::Gray.as_str(), "gray");
}

#[test]
fn values_print_then_parse_back() {
    let requests = [
        ImageRequest {
            region: Region::Pixels { x: 4294967295, y: 0, width: 1, height: 4294967295 },
            size: Size { upscale: true, kind: SizeKind::Confined(7, 9) },
            rotation: Rotation { mirror: true, degrees: dec(3599, 1) },
            quality: Quality::Bitonal,
            format: Format::Webp,
        },
        ImageRequest {
            region: Region::Percent {
                x: dec(99_999_999, 6),
                y: dec(0, 0),
                width: dec(100, 0),
                height: dec(1, 18),
            },
            size: Size { upscale: false, kind: SizeKind::Percent(dec(100, 0)) },
            rotation: Rotation { mirror: false, degrees: dec(0, 0) },
            quality: Quality::Default,
            format: Format::Jpg,
        },
        ImageRequest {
            region: Region::Square,
            size: Size { upscale: false, kind: SizeKind::Height(12) },
            rotation: Rotation { mirror: false, degrees: dec(5, 2) },
            quality: Quality::Gray,
            format: Format::Png,
        },
    ];
    for req in requests {
        let printed = req.to_string();
        assert_eq!(ImageRequest::parse(&printed).unwrap(), req);
    }
    assert_eq!(
        requests[1].to_string(),
        "pct:99.999999,0,100,0.000000000000000001/pct:100/0/default.jpg"
    );
}

#[test]
fn noncanonical_spellings_normalize() {
    let req = ImageRequest::parse("0007,00,010,1/^pct:150.0/!090.50/color.gif").unwrap();
    let printed = req.to_string();
    assert_eq!(printed, "7,0,10,1/^pct:150/!90.5/color.gif");
    assert_eq!(ImageRequest::parse(&printed).unwrap(), req);
    assert_eq!(ImageRequest::parse(&printed).unwrap().to_string(), printed);
}
