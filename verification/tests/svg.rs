use watermarker::commands::{watermark_data_from, WatermarkDataError};
use watermarker::state::WatermarkData;
use watermarker::watermark::{from_svg_bytes, rasterize_raster, RgbaImage};

const RED_SQUARE_SVG: &[u8] = br#"<svg xmlns="http://www.w3.org/2000/svg" width="20" height="10"><rect width="20" height="10" fill="rgb(255,0,0)"/></svg>"#;

#[test]
fn svg_bytes_parse() {
    let tree = from_svg_bytes(RED_SQUARE_SVG).unwrap();
    assert_eq!(tree.size().width(), 20.0);
}

#[test]
fn svg_garbage_and_non_utf8_are_refused() {
    assert!(from_svg_bytes(b"not svg at all").is_err());
    assert!(from_svg_bytes(&[0xff, 0xfe, 0x3c]).is_err());
}

#[test]
fn linked_images_are_not_resolved() {
    let svg = br#"<svg xmlns="http://www.w3.org/2000/svg" xmlns:xlink="http://www.w3.org/1999/xlink" width="10" height="10"><image width="10" height="10" xlink:href="/etc/passwd"/></svg>"#;
    // The document still parses; the link is simply not loaded.
    let tree = from_svg_bytes(svg).unwrap();
    assert!(!tree.root().has_children());
}

#[test]
fn watermark_data_from_picks_svg_or_raster() {
    let (data, kind) = watermark_data_from("logo.SVG", RED_SQUARE_SVG.to_vec()).unwrap();
    assert_eq!(kind, "svg");
    assert!(matches!(data, WatermarkData::Svg(ref b) if b.as_slice() == RED_SQUARE_SVG));

    let mut img = image::RgbaImage::new(6, 4);
    img.put_pixel(2, 1, image::Rgba([9, 9, 9, 255]));
    let mut png = Vec::new();
    image::DynamicImage::ImageRgba8(img)
        .write_to(&mut std::io::Cursor::new(&mut png), image::ImageFormat::Png)
        .unwrap();
    let (data, kind) = watermark_data_from("logo.png", png).unwrap();
    assert_eq!(kind, "raster");
    match data {
        WatermarkData::Raster(r) => assert_eq!(r.dimensions(), (1, 1)),
        WatermarkData::Svg(_) => panic!("expected a raster"),
    }

    assert!(matches!(
        watermark_data_from("bad.svg", b"<svg".to_vec()),
        Err(WatermarkDataError::Svg(_))
    ));
    assert!(matches!(
        watermark_data_from("bad.png", b"nope".to_vec()),
        Err(WatermarkDataError::Decode(_))
    ));
}

#[test]
fn raster_rasterize_resizes() {
    let img = RgbaImage::from_pixel(10, 10, [0, 128, 0, 255]);
    let out = rasterize_raster(&img, 40, 40);
    assert_eq!(out.dimensions(), (40, 40));
    // A solid color survives resampling.
    let p = out.get_pixel(20, 20);
    assert!(p[1] > 100 && p[3] > 200, "got {:?}", p);
}

#[test]
fn rasterize_keeps_at_least_one_pixel_and_copies_same_size() {
    let img = RgbaImage::from_pixel(10, 10, [128, 0, 0, 255]);
    assert_eq!(rasterize_raster(&img, 40, 20).dimensions(), (40, 20));
    assert_eq!(rasterize_raster(&img, 0, 0).dimensions(), (1, 1));
    let same = rasterize_raster(&img, 10, 10);
    assert_eq!(same.as_raw(), img.as_raw());
}
