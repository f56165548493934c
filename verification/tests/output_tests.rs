use std::io::Cursor;

use iiif_core::codec::simple::SimpleMaster;
use iiif_core::encode::{encode, pdf_from_jpeg, EncodeError};
use iiif_core::eval::evaluate;
use iiif_core::grammar::{Format, ImageRequest};
use iiif_core::image::Raster;
use iiif_core::info::Limits;
use iiif_core::pipeline::render;

fn expected_pixel(x: u32, y: u32) -> [u8; 3] {
    [(x % 256) as u8, (y % 256) as u8, (((x / 256) * 64 + (y / 256) * 32) % 256) as u8]
}

fn pattern(width: u32, height: u32) -> Raster {
    let mut data = Vec::with_capacity((width * height * 3) as usize);
    for y in 0..height {
        for x in 0..width {
            data.extend_from_slice(&expected_pixel(x, y));
        }
    }
    Raster::Rgb8 { width, height, data }
}

fn serve(path: &str) -> Vec<u8> {
    let master = SimpleMaster::from_raster(pattern(1024, 768));
    let request = ImageRequest::parse(path).unwrap();
    let plan = evaluate(&request, 1024, 768, Limits { width: 8192, height: 8192, area: 67_108_864 })
        .unwrap();
    let crop = master.decode_crop(plan.crop).unwrap();
    let raster = render(crop, &plan).unwrap();
    encode(&raster, plan.format).unwrap()
}

const REGION: &str = "300,200,256,256/max/0/default";

#[test]
fn tif_output_roundtrips_exactly() {
    let bytes = serve(&format!("{REGION}.tif"));
    let mut decoder = tiff::decoder::Decoder::new(Cursor::new(&bytes)).unwrap();
    let (w, h) = decoder.dimensions().unwrap();
    assert_eq!((w, h), (256, 256));
    let tiff::decoder::DecodingResult::U8(data) = decoder.read_image().unwrap() else {
        panic!("expected 8-bit output");
    };
    let off = ((100 * 256 + 100) * 3) as usize;
    assert_eq!(&data[off..off + 3], &expected_pixel(400, 300));
}

#[test]
fn webp_output_is_lossless() {
    let bytes = serve(&format!("{REGION}.webp"));
    assert_eq!(&bytes[..4], b"RIFF");
    assert_eq!(&bytes[8..12], b"WEBP");
    let mut decoder = image_webp::WebPDecoder::new(Cursor::new(&bytes)).unwrap();
    assert_eq!(decoder.dimensions(), (256, 256));
    let mut data = vec![0_u8; decoder.output_buffer_size().unwrap()];
    decoder.read_image(&mut data).unwrap();
    let off = ((100 * 256 + 100) * 3) as usize;
    assert_eq!(&data[off..off + 3], &expected_pixel(400, 300));
}

#[test]
fn gif_output_decodes_with_palette_tolerance() {
    let bytes = serve(&format!("{REGION}.gif"));
    assert_eq!(&bytes[..6], b"GIF89a");
    let mut options = gif::DecodeOptions::new();
    options.set_color_output(gif::ColorOutput::RGBA);
    let mut decoder = options.read_info(Cursor::new(&bytes)).unwrap();
    let frame = decoder.read_next_frame().unwrap().unwrap();
    assert_eq!((frame.width, frame.height), (256, 256));
    let off = ((100 * 256 + 100) * 4) as usize;
    let expected = expected_pixel(400, 300);
    for (channel, want) in expected.iter().enumerate() {
        let got = frame.buffer[off + channel];
        assert!(got.abs_diff(*want) <= 24, "palette channel {channel}: got {got}, expected ≈{want}");
    }
}

#[test]
fn pdf_output_embeds_the_jpeg() {
    let bytes = serve(&format!("{REGION}.pdf"));
    assert!(bytes.starts_with(b"%PDF-1.4"));
    assert!(bytes.ends_with(b"%%EOF\n"));
    let body = String::from_utf8_lossy(&bytes);
    assert!(body.contains("/Filter /DCTDecode"));
    assert!(body.contains("/MediaBox [0 0 256 256]"));
    let soi = bytes.windows(2).position(|w| w == [0xFF, 0xD8]);
    assert!(soi.is_some(), "no JPEG SOI in PDF");
}

fn find(hay: &[u8], needle: &[u8]) -> usize {
    hay.windows(needle.len()).rposition(|w| w == needle).unwrap()
}

fn number_at(bytes: &[u8], at: usize) -> usize {
    let end = at + bytes[at..].iter().position(|b| !b.is_ascii_digit()).unwrap();
    std::str::from_utf8(&bytes[at..end]).unwrap().parse().unwrap()
}

#[test]
fn pdf_xref_points_at_each_object() {
    let bytes = serve(&format!("{REGION}.pdf"));
    let offset = number_at(&bytes, find(&bytes, b"startxref\n") + 10);
    assert!(bytes[offset..].starts_with(b"xref\n0 6\n0000000000 65535 f\n"));
    let table = offset + 28;
    for n in 1..=5_usize {
        let line = table + (n - 1) * 19;
        assert_eq!(&bytes[line + 10..line + 19], b" 00000 n\n");
        let at = number_at(&bytes, line);
        let header = format!("{n} 0 obj\n");
        assert!(bytes[at..].starts_with(header.as_bytes()), "object {n}");
    }
}

#[test]
fn mirroring_reverses_rows() {
    let bytes = serve("0,0,256,256/256,/!0/default.png");
    let mut reader = png::Decoder::new(Cursor::new(&bytes)).read_info().unwrap();
    let mut buf = vec![0; reader.output_buffer_size().unwrap()];
    reader.next_frame(&mut buf).unwrap();
    assert_eq!(buf[0], 255, "left edge r channel after mirror");
    let last = (255 * 3) as usize;
    assert_eq!(buf[last], 0, "right edge r channel after mirror");
}

#[test]
fn quality_and_rotation_transforms() {
    let bytes = serve("0,0,256,256/64,/0/gray.png");
    let mut reader = png::Decoder::new(Cursor::new(&bytes)).read_info().unwrap();
    let mut buf = vec![0; reader.output_buffer_size().unwrap()];
    let info = reader.next_frame(&mut buf).unwrap();
    assert_eq!(info.color_type, png::ColorType::Grayscale);

    let bytes = serve("0,0,256,256/64,/0/bitonal.png");
    let mut reader = png::Decoder::new(Cursor::new(&bytes)).read_info().unwrap();
    let mut buf = vec![0; reader.output_buffer_size().unwrap()];
    let info = reader.next_frame(&mut buf).unwrap();
    assert!(buf[..info.buffer_size()].iter().all(|&px| px == 0 || px == 255));

    let bytes = serve("0,0,512,256/256,128/90/default.png");
    let mut reader = png::Decoder::new(Cursor::new(&bytes)).read_info().unwrap();
    let mut buf = vec![0; reader.output_buffer_size().unwrap()];
    let info = reader.next_frame(&mut buf).unwrap();
    assert_eq!((info.width, info.height), (128, 256));
}

#[test]
fn formats_refuse_what_they_cannot_represent() {
    let wide = Raster::Gray8 { width: 70_000, height: 1, data: vec![0; 70_000] };
    assert!(matches!(
        encode(&wide, Format::Jpg),
        Err(EncodeError::DimensionsBeyondFormat { format: Format::Jpg, width: 70_000, height: 1 })
    ));
    assert!(matches!(
        encode(&wide, Format::Gif),
        Err(EncodeError::DimensionsBeyondFormat { format: Format::Gif, .. })
    ));
    let err = EncodeError::DimensionsBeyondFormat { format: Format::Jpg, width: 70_000, height: 1 };
    assert_eq!(err.to_string(), "70000×1 exceeds what jpg can represent");
}

#[test]
fn alpha_survives_webp_and_flattens_elsewhere() {
    // The corners a 45° rotation leaves behind are transparent: build such a
    // raster directly (the rotation itself is floating-point work).
    let crop = SimpleMaster::from_raster(pattern(1024, 768))
        .decode_crop(evaluate(
            &ImageRequest::parse("300,200,256,256/max/0/default.webp").unwrap(),
            1024,
            768,
            Limits { width: 8192, height: 8192, area: 67_108_864 },
        )
        .unwrap()
        .crop)
        .unwrap();
    let Raster::Rgb8 { width, height, data } = crop else { panic!("expected RGB") };
    let mut rgba = Vec::with_capacity(data.len() / 3 * 4);
    for (i, px) in data.chunks_exact(3).enumerate() {
        let (x, y) = (i as u32 % width, i as u32 / width);
        let inside = x + y >= width / 2 && x + y < width + height / 2;
        rgba.extend_from_slice(&[px[0], px[1], px[2], if inside { 255 } else { 0 }]);
    }
    let raster = Raster::Rgba8 { width, height, data: rgba };
    let bytes = encode(&raster, Format::Webp).unwrap();
    let decoder = image_webp::WebPDecoder::new(Cursor::new(&bytes)).unwrap();
    assert!(decoder.has_alpha(), "webp should keep rotation alpha");
    let bytes = encode(&raster, Format::Tif).unwrap();
    let mut decoder = tiff::decoder::Decoder::new(Cursor::new(&bytes)).unwrap();
    assert_eq!(
        decoder.colortype().unwrap(),
        tiff::ColorType::RGB(8),
        "tif flattens to opaque RGB"
    );
}

#[test]
fn png_keeps_alpha_and_jpeg_flattens_it() {
    let rgba = Raster::Rgba8 { width: 1, height: 1, data: vec![0, 0, 0, 0] };
    let (_, _, color, buf) = {
        let bytes = encode(&rgba, Format::Png).unwrap();
        let mut reader = png::Decoder::new(Cursor::new(&bytes)).read_info().unwrap();
        let mut buf = vec![0; reader.output_buffer_size().unwrap()];
        let info = reader.next_frame(&mut buf).unwrap();
        (info.width, info.height, info.color_type, buf)
    };
    assert_eq!(color, png::ColorType::Rgba);
    assert_eq!(buf, vec![0, 0, 0, 0]);
    let tif = encode(&rgba, Format::Tif).unwrap();
    let mut decoder = tiff::decoder::Decoder::new(Cursor::new(&tif)).unwrap();
    assert_eq!(decoder.colortype().unwrap(), tiff::ColorType::RGB(8));
    let tiff::decoder::DecodingResult::U8(data) = decoder.read_image().unwrap() else { panic!() };
    assert_eq!(data, vec![255, 255, 255], "transparent black over white is white");
}

#[test]
fn pdf_wraps_given_jpeg_bytes() {
    let jpeg = vec![0xFF, 0xD8, 0x01, 0x02, 0xFF, 0xD9];
    let pdf = pdf_from_jpeg(&jpeg, 7, 5, true);
    let text = String::from_utf8_lossy(&pdf);
    assert!(pdf.starts_with(b"%PDF-1.4\n%\xE2\xE3\xCF\xD3\n1 0 obj\n<< /Type /Catalog /Pages 2 0 R >>"));
    assert!(text.contains("/MediaBox [0 0 7 5]"));
    assert!(text.contains("/Width 7 /Height 5 /ColorSpace /DeviceGray /BitsPerComponent 8 /Filter /DCTDecode /Length 6 >>\nstream\n"));
    let at = find(&pdf, b"stream\n\xFF\xD8") + 7;
    assert_eq!(&pdf[at..at + 6], jpeg.as_slice());
    let offset = number_at(&pdf, find(&pdf, b"startxref\n") + 10);
    assert!(pdf[offset..].starts_with(b"xref\n0 6\n"));
    assert!(pdf.ends_with(b"%%EOF\n"));
}

#[test]
fn rotation_360_is_identity_geometry() {
    let bytes = serve("0,0,256,256/max/360/default.png");
    let reader = png::Decoder::new(Cursor::new(&bytes)).read_info().unwrap();
    let info = reader.info();
    assert_eq!((info.width, info.height), (256, 256));
}

#[test]
fn short_buffers_are_refused_by_the_checking_encoders() {
    let short = Raster::Rgb8 { width: 4, height: 4, data: vec![0; 10] };
    for format in [Format::Png, Format::Tif, Format::Jpg, Format::Pdf] {
        assert!(
            matches!(encode(&short, format), Err(EncodeError::Internal(_))),
            "{format:?} should refuse a short buffer"
        );
    }
}

#[test]
fn every_checking_encoder_takes_a_whole_raster() {
    let gray = Raster::Gray8 { width: 3, height: 2, data: vec![0, 50, 100, 150, 200, 250] };
    let rgba = Raster::Rgba8 { width: 1, height: 1, data: vec![10, 20, 30, 40] };
    for format in [Format::Jpg, Format::Png, Format::Tif, Format::Webp, Format::Pdf] {
        assert!(encode(&gray, format).is_ok(), "{format:?} gray");
        assert!(encode(&rgba, format).is_ok(), "{format:?} rgba");
    }
    let empty = Raster::Gray8 { width: 0, height: 3, data: vec![] };
    assert!(matches!(encode(&empty, Format::Png), Err(EncodeError::Internal(_))));
    assert!(matches!(encode(&empty, Format::Jpg), Err(EncodeError::Internal(_))));
    let tall = Raster::Gray8 { width: 1, height: 16385, data: vec![0; 16385] };
    assert!(matches!(encode(&tall, Format::Webp), Err(EncodeError::Internal(_))));
}
