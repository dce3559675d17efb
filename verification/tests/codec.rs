use watermarker::commands::raster_watermark;
use watermarker::decode::{load_rgba_from_bytes, DecodeError};
use watermarker::preview::{encode_png, encode_preview};
use watermarker::watermark::RgbaImage;

fn png_of(img: &image::RgbaImage) -> Vec<u8> {
    let mut bytes = Vec::new();
    image::DynamicImage::ImageRgba8(img.clone())
        .write_to(&mut std::io::Cursor::new(&mut bytes), image::ImageFormat::Png)
        .unwrap();
    bytes
}

#[test]
fn decodes_a_normal_image_within_limits() {
    // A small valid PNG must still decode after the decode-limit guard.
    let img = image::RgbaImage::from_pixel(4, 3, image::Rgba([10, 20, 30, 255]));
    let out = load_rgba_from_bytes(&png_of(&img)).unwrap();
    assert_eq!(out.dimensions(), (4, 3));
    assert_eq!(out.get_pixel(3, 2), [10, 20, 30, 255]);
}

#[test]
fn decode_rejects_garbage() {
    match load_rgba_from_bytes(b"definitely not an image") {
        Err(DecodeError::Image(_)) => {}
        Err(DecodeError::Io(_)) => panic!("unexpected io error"),
        Ok(_) => panic!("garbage decoded"),
    }
}

#[test]
fn decode_refuses_dimensions_over_the_limit() {
    // A 1 x 40000 PNG passes the format check but exceeds the height limit.
    let img = image::RgbaImage::new(1, 40000);
    assert!(load_rgba_from_bytes(&png_of(&img)).is_err());
}

#[test]
fn encode_preview_produces_decodable_png() {
    let img = RgbaImage::from_pixel(16, 16, [10, 20, 30, 255]);
    let bytes = encode_preview(&img).unwrap();
    let decoded = image::load_from_memory(&bytes).unwrap().to_rgba8();
    assert_eq!(decoded.dimensions(), (16, 16));
    assert_eq!(decoded.get_pixel(0, 0).0, [10, 20, 30, 255]);
}

#[test]
fn encode_then_decode_round_trips_pixels() {
    let mut img = RgbaImage::new(3, 2);
    img.put_pixel(2, 1, [200, 100, 50, 128]);
    let bytes = encode_png(&img).unwrap();
    let back = load_rgba_from_bytes(&bytes).unwrap();
    assert_eq!(back.dimensions(), (3, 2));
    assert_eq!(back.as_raw(), img.as_raw());
}

#[test]
fn raster_watermark_is_decoded_and_trimmed() {
    let mut img = image::RgbaImage::new(10, 8);
    img.put_pixel(3, 2, image::Rgba([1, 2, 3, 255]));
    img.put_pixel(6, 4, image::Rgba([4, 5, 6, 255]));
    let wm = raster_watermark(&png_of(&img)).unwrap();
    assert_eq!(wm.dimensions(), (4, 3));
    assert_eq!(wm.get_pixel(0, 0), [1, 2, 3, 255]);
    assert_eq!(wm.get_pixel(3, 2), [4, 5, 6, 255]);
    assert!(raster_watermark(b"<svg/>").is_err());
}
