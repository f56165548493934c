use iiif_core::image::{CopyRect, Raster};
use iiif_core::pipeline::{finish, resize, rotation_step, PipelineError, RotationStep};
use iiif_core::grammar::{Decimal, Quality};

fn rgb(width: u32, height: u32) -> Raster {
    let data = (0..width * height * 3).map(|i| (i % 251) as u8).collect();
    Raster::Rgb8 { width, height, data }
}

#[test]
fn gray_uses_rounded_bt601_luma() {
    let r = Raster::Rgb8 { width: 3, height: 1, data: vec![255, 0, 0, 0, 255, 0, 0, 0, 255] };
    let g = r.into_gray();
    assert_eq!(g.channels(), 1);
    // 0.299·255 = 76.2, 0.587·255 = 149.7, 0.114·255 = 29.1.
    assert_eq!(g.data(), &[76, 150, 29]);
    let rgba = Raster::Rgba8 { width: 1, height: 1, data: vec![255, 255, 255, 7] };
    assert_eq!(rgba.into_gray().data(), &[255, 7]);
}

#[test]
fn bitonal_thresholds_at_half() {
    let g = Raster::Gray8 { width: 4, height: 1, data: vec![0, 127, 128, 255] };
    assert_eq!(g.into_bitonal().data(), &[0, 0, 255, 255]);
    let ga = Raster::GrayA8 { width: 2, height: 1, data: vec![200, 10, 100, 200] };
    assert_eq!(ga.into_bitonal().data(), &[255, 10, 0, 200]);
}

#[test]
fn flattening_composites_over_white() {
    let ga = Raster::GrayA8 { width: 2, height: 1, data: vec![0, 0, 0, 255] };
    let flat = ga.flatten_over_white();
    assert_eq!(flat.channels(), 1);
    assert_eq!(flat.data(), &[255, 0]);
    let rgba = Raster::Rgba8 { width: 1, height: 1, data: vec![100, 0, 200, 128] };
    // (v·128 + 255·127 + 127) / 255
    assert_eq!(rgba.flatten_over_white().data(), &[177, 127, 227]);
}

#[test]
fn mirror_twice_is_identity() {
    let r = rgb(5, 3);
    let mut m = r.clone();
    m.mirror();
    assert_ne!(m, r);
    assert_eq!(&m.data()[0..3], &r.data()[12..15]);
    m.mirror();
    assert_eq!(m, r);
}

#[test]
fn four_quarter_turns_are_identity() {
    let r = rgb(4, 3);
    let once = r.clone().rotate_quarters(1);
    assert_eq!((once.width(), once.height()), (3, 4));
    // Output (0, 0) is input (0, h - 1).
    assert_eq!(&once.data()[0..3], &r.data()[(2 * 4) * 3..(2 * 4) * 3 + 3]);
    let back = once.rotate_quarters(1).rotate_quarters(2);
    assert_eq!(back, r);
    assert_eq!(r.clone().rotate_quarters(4), r);
    let half = r.clone().rotate_quarters(2);
    assert_eq!(half.clone().rotate_quarters(2), r);
    assert_eq!(&half.data()[0..3], &r.data()[33..36]);
}

#[test]
fn blit_copies_rectangles() {
    let src = rgb(4, 4);
    let mut dst = src.zeroed_like(3, 2).unwrap();
    dst.blit(&src, CopyRect::new(1, 2, 2, 2), 1, 0).unwrap();
    let d = dst.data();
    assert_eq!(&d[0..3], &[0, 0, 0]);
    assert_eq!(&d[3..6], &src.data()[(2 * 4 + 1) * 3..(2 * 4 + 1) * 3 + 3]);
    assert_eq!(&d[12..15], &src.data()[(3 * 4 + 1) * 3..(3 * 4 + 1) * 3 + 3]);
    let before = dst.clone();
    let err = dst.blit(&src, CopyRect::new(3, 0, 2, 1), 0, 0).unwrap_err();
    assert_eq!(err.0, "blit rectangle out of bounds");
    assert_eq!(dst, before);
    let gray = Raster::Gray8 { width: 1, height: 1, data: vec![9] };
    let err = dst.blit(&gray, CopyRect::new(0, 0, 1, 1), 0, 0).unwrap_err();
    assert_eq!(err.to_string(), "raster error: blit between different pixel layouts");
}

#[test]
fn zeroed_like_checks_the_size() {
    let r = rgb(1, 1);
    let z = r.zeroed_like(2, 3).unwrap();
    assert_eq!((z.width(), z.height(), z.channels()), (2, 3, 3));
    assert!(z.data().iter().all(|&b| b == 0));
    assert_eq!(z.data().len(), 18);
}

#[test]
fn finish_applies_quality_mirror_and_turns() {
    let r = Raster::Gray8 { width: 2, height: 1, data: vec![10, 200] };
    let out = finish(r.clone(), Quality::Bitonal, true, RotationStep::Quarters(1));
    assert_eq!((out.width(), out.height()), (1, 2));
    assert_eq!(out.data(), &[255, 0]);
    let same = finish(r.clone(), Quality::Default, false, RotationStep::Keep);
    assert_eq!(same, r);
}

#[test]
fn rotation_steps() {
    assert_eq!(rotation_step(Decimal::new(0, 0).unwrap()), RotationStep::Keep);
    assert_eq!(rotation_step(Decimal::new(270, 0).unwrap()), RotationStep::Quarters(3));
    let odd = Decimal::new(225, 1).unwrap();
    assert_eq!(rotation_step(odd), RotationStep::Arbitrary(odd));
}

#[test]
fn two_quarter_turns_make_a_half_turn() {
    let raster = Raster::Rgb8 { width: 3, height: 2, data: (0..18).collect() };
    let twice = raster.clone().rotate_quarters(1).rotate_quarters(1);
    let half = raster.rotate_quarters(2);
    assert_eq!(twice, half);
    assert_eq!(half.data()[..6], [15, 16, 17, 12, 13, 14]);
}

#[test]
fn resize_succeeds_on_whole_rasters_and_refuses_overflow() {
    let raster = Raster::Rgb8 { width: 4, height: 2, data: vec![7; 24] };
    let out = resize(raster, 2, 1).unwrap();
    assert_eq!((out.width(), out.height(), out.channels()), (2, 1, 3));
    assert_eq!(out.data().len(), 6);
    let same = Raster::Gray8 { width: 2, height: 1, data: vec![1, 2] };
    assert_eq!(resize(same.clone(), 2, 1).unwrap(), same);
    let short = Raster::Gray8 { width: 4, height: 4, data: vec![0; 3] };
    assert!(matches!(resize(short, 2, 2), Err(PipelineError::Resize(_))));
    let tiny = Raster::Rgba8 { width: 1, height: 1, data: vec![0; 4] };
    match resize(tiny, u32::MAX, u32::MAX) {
        Err(PipelineError::Resize(m)) => assert_eq!(m, "output buffer size overflow"),
        other => panic!("unexpected {other:?}"),
    }
}

#[test]
fn resize_is_the_lanczos3_resample_of_the_raster() {
    let data: Vec<u8> = (0..6 * 4 * 3).map(|i| (i * 37 % 251) as u8).collect();
    let raster = Raster::Rgb8 { width: 6, height: 4, data: data.clone() };
    let out = resize(raster, 3, 5).unwrap();
    let src =
        fast_image_resize::images::Image::from_vec_u8(6, 4, data, fast_image_resize::PixelType::U8x3)
            .unwrap();
    let mut dst = fast_image_resize::images::Image::new(3, 5, fast_image_resize::PixelType::U8x3);
    let options = fast_image_resize::ResizeOptions::new().resize_alg(
        fast_image_resize::ResizeAlg::Convolution(fast_image_resize::FilterType::Lanczos3),
    );
    fast_image_resize::Resizer::new().resize(&src, &mut dst, &options).unwrap();
    assert_eq!(out.data(), dst.buffer());
}

fn binary64_luma(r: u8, g: u8, b: u8) -> u8 {
    let luma = 0.114_f64.mul_add(f64::from(b), 0.587_f64.mul_add(f64::from(g), 0.299 * f64::from(r)));
    luma.round().clamp(0.0, 255.0) as u8
}

#[test]
fn gray_conversion_rounds_as_binary64_luma_does() {
    let mut triples = Vec::new();
    for r in 0..=255u32 {
        for g in 0..=255u32 {
            for b in 0..=255u32 {
                if (299 * r + 587 * g + 114 * b) % 1000 == 500 || (r * 7 + g * 3 + b) % 61 == 0 {
                    triples.push([r as u8, g as u8, b as u8]);
                }
            }
        }
    }
    let data: Vec<u8> = triples.iter().flatten().copied().collect();
    let width = triples.len() as u32;
    let gray = Raster::Rgb8 { width, height: 1, data }.into_gray();
    let expected: Vec<u8> = triples.iter().map(|t| binary64_luma(t[0], t[1], t[2])).collect();
    assert_eq!(gray.data(), expected.as_slice());
    let one = Raster::Rgb8 { width: 1, height: 1, data: vec![0, 36, 12] }.into_gray();
    assert_eq!(one.data(), &[22]);
}
