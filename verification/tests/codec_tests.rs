use std::io::Cursor;

use iiif_core::codec::jp2::Jp2Master;
use iiif_core::codec::simple::{PngColor, SimpleMaster};
use iiif_core::codec::{
    check_pyramid, crop_in_level, describe_pyramid, guard_resident_pixels, level_for_needed,
    scale_factor_of, sniff_master, survey_level, CodecError, LevelInfo, MasterKind,
    MAX_RESIDENT_PIXELS,
};
use iiif_core::encode::encode;
use iiif_core::eval::{evaluate, CropRect};
use iiif_core::grammar::{Format, ImageRequest};
use iiif_core::image::Raster;
use iiif_core::info::{Limits, SizeEntry};
use iiif_core::pipeline::render;

fn limits() -> Limits {
    Limits::new(8192, 8192, 67_108_864)
}

fn expected_pixel(x: u32, y: u32) -> [u8; 3] {
    [(x % 256) as u8, (y % 256) as u8, (((x / 256) * 64 + (y / 256) * 32) % 256) as u8]
}

fn pattern(width: u32, height: u32) -> Raster {
    let mut data = Vec::with_capacity((width * height * 3) as usize);
    for y in 0..height {
        for x in 0..width {
            data.extend_from_slice(&expected_pixel(x, y));
        }
    }
    Raster::Rgb8 { width, height, data }
}

fn png_bytes(raster: &Raster) -> Vec<u8> {
    encode(raster, Format::Png).unwrap()
}

fn serve(master: &SimpleMaster, path: &str, full: (u32, u32)) -> Vec<u8> {
    let request = ImageRequest::parse(path).unwrap();
    let plan = evaluate(&request, full.0, full.1, limits()).unwrap();
    let crop = master.decode_crop(plan.crop).unwrap();
    let raster = render(crop, &plan).unwrap();
    encode(&raster, plan.format).unwrap()
}

fn decode_png(bytes: &[u8]) -> (u32, u32, png::ColorType, Vec<u8>) {
    let mut reader = png::Decoder::new(Cursor::new(bytes)).read_info().unwrap();
    let mut buf = vec![0; reader.output_buffer_size().unwrap()];
    let info = reader.next_frame(&mut buf).unwrap();
    buf.truncate(info.buffer_size());
    (info.width, info.height, info.color_type, buf)
}

fn assert_pattern(name: &str, buf: &[u8], out_w: u32, origin: (u32, u32), tolerance: u8) {
    for (rx, ry) in [(0_u32, 0_u32), (13, 40), (100, 60), (255, 100)] {
        let off = ((ry * out_w + rx) * 3) as usize;
        if off + 3 > buf.len() {
            continue;
        }
        let expected = expected_pixel(origin.0 + rx, origin.1 + ry);
        for channel in 0..3 {
            assert!(
                buf[off + channel].abs_diff(expected[channel]) <= tolerance,
                "{name} pixel ({rx},{ry}) channel {channel}"
            );
        }
    }
}

#[test]
fn plain_png_master_serves() {
    let master = SimpleMaster::from_png(&png_bytes(&pattern(512, 384))).unwrap();
    assert_eq!(master.dimensions(), (512, 384));
    let bytes = serve(&master, "100,100,256,256/max/0/default.png", (512, 384));
    let (width, height, _, buf) = decode_png(&bytes);
    assert_eq!((width, height), (256, 256));
    assert_pattern("png", &buf, width, (100, 100), 0);
}

#[test]
fn plain_jpeg_master_serves() {
    let Raster::Rgb8 { data, .. } = pattern(1024, 768) else { unreachable!() };
    let mut jpeg = Vec::new();
    let mut encoder = jpeg_encoder::Encoder::new(&mut jpeg, 92);
    encoder.set_sampling_factor(jpeg_encoder::SamplingFactor::R_4_4_4);
    encoder.encode(&data, 1024, 768, jpeg_encoder::ColorType::Rgb).unwrap();
    let master = SimpleMaster::from_jpeg(&jpeg).unwrap();
    assert_eq!(master.dimensions(), (1024, 768));
    let bytes = serve(&master, "300,200,256,256/max/0/default.png", (1024, 768));
    let (width, height, _, buf) = decode_png(&bytes);
    assert_eq!((width, height), (256, 256));
    assert_pattern("jpeg", &buf, width, (300, 200), 12);
}

#[test]
fn simple_masters_describe_honestly() {
    let master = SimpleMaster::from_png(&png_bytes(&pattern(512, 384))).unwrap();
    let description = master.describe();
    assert!(description.tiles.is_empty());
    assert_eq!(description.sizes.len(), 1);
    assert_eq!(description.sizes[0], SizeEntry { width: 512, height: 384 });
}

#[test]
fn unrecognized_master_is_actionable() {
    let Err(err) = sniff_master(b"not an image at all") else {
        panic!("garbage must not open");
    };
    assert!(err.to_string().contains("supported"), "got: {}", err.to_string());
}

fn crc32(bytes: &[u8]) -> u32 {
    let mut crc = 0xFFFF_FFFF_u32;
    for &b in bytes {
        crc ^= u32::from(b);
        for _ in 0..8 {
            crc = if crc & 1 == 1 { (crc >> 1) ^ 0xEDB8_8320 } else { crc >> 1 };
        }
    }
    !crc
}

fn png_header_only(width: u32, height: u32) -> Vec<u8> {
    let mut out = vec![0x89, b'P', b'N', b'G', 0x0D, 0x0A, 0x1A, 0x0A];
    let mut chunk = b"IHDR".to_vec();
    chunk.extend_from_slice(&width.to_be_bytes());
    chunk.extend_from_slice(&height.to_be_bytes());
    chunk.extend_from_slice(&[8, 2, 0, 0, 0]);
    out.extend_from_slice(&13_u32.to_be_bytes());
    out.extend_from_slice(&chunk);
    out.extend_from_slice(&crc32(&chunk).to_be_bytes());
    for name in [b"IDAT", b"IEND"] {
        out.extend_from_slice(&0_u32.to_be_bytes());
        out.extend_from_slice(name);
        out.extend_from_slice(&crc32(name).to_be_bytes());
    }
    out
}

#[test]
fn declared_dimension_bomb_is_rejected_before_allocating() {
    let bytes = png_header_only(512, 16_777_335);
    let Err(err) = SimpleMaster::from_png(&bytes) else {
        panic!("dimension bomb must be rejected");
    };
    assert!(matches!(err, CodecError::LimitExceeded(_)));
    let message = err.to_string();
    assert!(message.contains("ceiling"), "got: {message}");
    assert!(message.contains("pyramidal"), "advice missing: {message}");
}

fn pyramid() -> Vec<LevelInfo> {
    vec![
        LevelInfo { ifd: 0, width: 1024, height: 768, tile_width: 256, tile_height: 256, scale_factor: 1 },
        LevelInfo { ifd: 1, width: 512, height: 384, tile_width: 256, tile_height: 256, scale_factor: 2 },
        LevelInfo { ifd: 2, width: 256, height: 192, tile_width: 256, tile_height: 256, scale_factor: 4 },
    ]
}

#[test]
fn level_selection_uses_pyramid() {
    let levels = pyramid();
    // needed = crop width / output width.
    assert_eq!(levels[level_for_needed(&levels, 4, 1)].scale_factor, 4);
    assert_eq!(levels[level_for_needed(&levels, 3, 1)].scale_factor, 2);
    assert_eq!(levels[level_for_needed(&levels, 1, 1)].scale_factor, 1);
    assert_eq!(levels[level_for_needed(&levels, 1, 2)].scale_factor, 1);
}

#[test]
fn pyramid_description_and_checks() {
    let levels = pyramid();
    assert!(check_pyramid(&levels).is_ok());
    let d = describe_pyramid(&levels);
    assert_eq!((d.width, d.height), (1024, 768));
    assert_eq!(d.tiles[0].width, 256);
    assert_eq!(d.tiles[0].height, None);
    assert_eq!(d.tiles[0].scale_factors, vec![1, 2, 4]);
    assert_eq!(
        d.sizes,
        vec![
            SizeEntry { width: 256, height: 192 },
            SizeEntry { width: 512, height: 384 },
            SizeEntry { width: 1024, height: 768 },
        ]
    );
    let mut pages = pyramid();
    pages[1].width = 1024;
    let err = check_pyramid(&pages).unwrap_err();
    assert!(matches!(err, CodecError::Unsupported(_)));
    assert_eq!(scale_factor_of(1024, 512), 2);
    assert_eq!(scale_factor_of(1000, 333), 3);
    assert_eq!(scale_factor_of(10, 0), 1);
}

#[test]
fn crops_map_into_levels() {
    let level = pyramid()[2];
    // 300..556 at factor 4: floor(300/4) = 75, ceil(556/4) = 139.
    assert_eq!(crop_in_level(CropRect { x: 300, y: 200, w: 256, h: 256 }, level), (75, 50, 64, 64));
}

#[test]
fn resident_pixel_guard() {
    assert!(guard_resident_pixels(16384, 16384).is_ok());
    assert_eq!(u64::from(16384_u32) * 16384, MAX_RESIDENT_PIXELS);
    let err = guard_resident_pixels(16384, 16385).unwrap_err();
    assert!(err.to_string().starts_with("limit exceeded: 16384×16385 exceeds"));
}

#[test]
fn magic_bytes_pick_the_codec() {
    assert_eq!(sniff_master(b"II*\0rest").unwrap(), MasterKind::Tiff);
    assert_eq!(sniff_master(b"MM\0*rest").unwrap(), MasterKind::Tiff);
    assert_eq!(sniff_master(b"\0\0\0\x0cjP  \r\n\x87\n").unwrap(), MasterKind::Jp2);
    assert_eq!(sniff_master(b"\xFF\x4F\xFF\x51").unwrap(), MasterKind::Jp2);
    assert_eq!(sniff_master(b"\xFF\xD8\xFF").unwrap(), MasterKind::Jpeg);
    assert_eq!(sniff_master(b"\x89PNG\r\n").unwrap(), MasterKind::Png);
}

#[test]
fn simple_master_crops_exactly() {
    let master = SimpleMaster::from_raster(pattern(64, 48));
    let out = master.decode_crop(CropRect { x: 10, y: 5, w: 4, h: 3 }).unwrap();
    assert_eq!((out.width(), out.height()), (4, 3));
    assert_eq!(&out.data()[0..3], &expected_pixel(10, 5));
    assert!(master.decode_crop(CropRect { x: 62, y: 0, w: 4, h: 1 }).is_err());
    assert!(master.advisories().is_empty());
    let big = SimpleMaster::from_raster(Raster::Gray8 { width: 4000, height: 1001, data: vec![0; 4_004_000] });
    assert_eq!(big.advisories().len(), 1);
}

#[test]
fn jp2_master_header_and_ladder() {
    assert!(matches!(
        Jp2Master::from_header(vec![], 100, 100, 4, 3, None),
        Err(CodecError::Unsupported(_))
    ));
    let m = Jp2Master::from_header(vec![1, 2, 3], 1000, 600, 3, 4, None).unwrap();
    let d = m.describe();
    assert_eq!(d.tiles[0].width, 1024);
    assert_eq!(d.tiles[0].scale_factors, vec![1, 2, 4, 8]);
    assert_eq!(d.sizes[0], SizeEntry { width: 125, height: 75 });
    assert_eq!(d.sizes[3], SizeEntry { width: 1000, height: 600 });
    // 1000 wide onto 100: 8 ≤ 10 < 16, but the ladder stops at 3 halvings.
    assert_eq!(m.levels_for(1000, 100), 3);
    assert_eq!(m.levels_for(1000, 300), 1);
    assert_eq!(m.levels_for(1000, 1000), 0);
    let (levels, scaled) = m.decode_geometry(CropRect { x: 5, y: 5, w: 100, h: 10 }, 25);
    assert_eq!(levels, 2);
    assert_eq!(scaled, CropRect { x: 1, y: 1, w: 26, h: 3 });
    assert_eq!(m.channels(), 3);
    let single = Jp2Master::from_header(vec![], 4000, 2000, 1, 0, Some((512, 256))).unwrap();
    assert_eq!(single.advisories().len(), 1);
    assert_eq!(single.describe().tiles[0].height, Some(256));
}

#[test]
fn surveyed_levels_carry_their_scale() {
    let level = survey_level(2, 6000, 1500, 1000, true, 256, 128).unwrap();
    assert_eq!(
        level,
        LevelInfo { ifd: 2, width: 1500, height: 1000, tile_width: 256, tile_height: 128, scale_factor: 4 }
    );
    assert_eq!(survey_level(1, 6000, 2999, 2000, true, 256, 256).unwrap().scale_factor, 2);
    match survey_level(3, 6000, 750, 500, false, 0, 0) {
        Err(CodecError::Unsupported(m)) => assert_eq!(
            m,
            "IFD 3 is not tiled; this master will serve slowly — convert with: vips tiffsave in.tif out.tif --tile --pyramid"
        ),
        other => panic!("unexpected {other:?}"),
    }
}

#[test]
fn decoded_frames_become_masters() {
    let master = SimpleMaster::from_png_frame(vec![10, 20, 30, 255, 0, 0, 0, 0, 99], 2, 1, PngColor::Rgba, 8, 8)
        .unwrap();
    assert_eq!(master.dimensions(), (2, 1));
    assert_eq!(master.raster(), &Raster::Rgb8 { width: 2, height: 1, data: vec![10, 20, 30, 255, 255, 255] });
    let ga = SimpleMaster::from_png_frame(vec![10, 255, 10, 0, 100, 128], 3, 1, PngColor::GrayscaleAlpha, 8, 6)
        .unwrap();
    assert_eq!(ga.raster(), &Raster::Gray8 { width: 3, height: 1, data: vec![10, 255, 177] });
    let png = png_bytes(&Raster::GrayA8 { width: 2, height: 1, data: vec![0, 0, 40, 255] });
    let flat = SimpleMaster::from_png(&png).unwrap();
    assert_eq!(flat.raster(), &Raster::Gray8 { width: 2, height: 1, data: vec![255, 40] });
    let gray = SimpleMaster::from_png_frame(vec![1, 2, 3, 4], 3, 1, PngColor::Grayscale, 8, 3).unwrap();
    assert_eq!(gray.raster().data(), &[1, 2, 3]);
    match SimpleMaster::from_png_frame(vec![0; 4], 2, 2, PngColor::Indexed, 8, 4) {
        Err(CodecError::Unsupported(m)) => {
            assert_eq!(m, "PNG Indexed/Eight is not yet in the supported matrix")
        }
        other => panic!("unexpected {other:?}"),
    }
    match SimpleMaster::from_png_frame(vec![0; 8], 2, 2, PngColor::Grayscale, 16, 8) {
        Err(CodecError::Unsupported(m)) => {
            assert_eq!(m, "PNG Grayscale/Sixteen is not yet in the supported matrix")
        }
        other => panic!("unexpected {other:?}"),
    }
    let jpeg = SimpleMaster::from_rgb_pixels(vec![1, 2, 3], Some((1, 1))).unwrap();
    assert_eq!(jpeg.raster(), &Raster::Rgb8 { width: 1, height: 1, data: vec![1, 2, 3] });
    match SimpleMaster::from_rgb_pixels(vec![], None) {
        Err(CodecError::Corrupt(m)) => assert_eq!(m, "JPEG has no dimensions"),
        other => panic!("unexpected {other:?}"),
    }
}
