use image::{ImageEncoder, RgbaImage};
use img_parts::png::Png;
use img_parts::{Bytes, ImageEXIF, ImageICC};

use watermarker::metadata::{extract_from_bytes, finalize_png, Metadata, SOFTWARE};

fn tiny_png() -> Vec<u8> {
    let img = RgbaImage::from_pixel(8, 8, image::Rgba([1, 2, 3, 255]));
    let mut buf = std::io::Cursor::new(Vec::new());
    image::codecs::png::PngEncoder::new(&mut buf)
        .write_image(img.as_raw(), 8, 8, image::ExtendedColorType::Rgba8)
        .unwrap();
    buf.into_inner()
}

fn contains(haystack: &[u8], needle: &[u8]) -> bool {
    haystack.windows(needle.len()).any(|w| w == needle)
}

#[test]
fn finalize_roundtrips_icc_and_exif() {
    let meta = Metadata {
        icc: Some(vec![9, 8, 7, 6, 5]),
        exif: Some(b"MM\x00\x2a\x00\x00\x00\x08".to_vec()),
    };
    let out = finalize_png(&tiny_png(), Some(&meta), true).unwrap();

    let png = Png::from_bytes(Bytes::from(out.clone())).unwrap();
    assert_eq!(png.icc_profile().map(|b| b.to_vec()), meta.icc);
    assert_eq!(png.exif().map(|b| b.to_vec()), meta.exif);
    assert!(contains(&out, b"Software"), "software tag missing");
    assert_eq!(
        image::load_from_memory(&out).unwrap().to_rgba8().dimensions(),
        (8, 8)
    );
}

#[test]
fn finalize_without_software_tag_stays_clean() {
    let out = finalize_png(&tiny_png(), None, false).unwrap();
    let png = Png::from_bytes(Bytes::from(out.clone())).unwrap();
    assert!(png.icc_profile().is_none());
    assert!(png.exif().is_none());
    assert!(!contains(&out, b"Software"), "expected no software tag");
    let decoded = image::load_from_memory(&out).unwrap().to_rgba8();
    assert_eq!(decoded.dimensions(), (8, 8));
}

#[test]
fn software_chunk_sits_before_iend() {
    let out = finalize_png(&tiny_png(), None, true).unwrap();
    let png = Png::from_bytes(Bytes::from(out.clone())).unwrap();
    let kinds: Vec<[u8; 4]> = png.chunks().iter().map(|c| c.kind()).collect();
    let n = kinds.len();
    assert_eq!(kinds[n - 1], *b"IEND");
    assert_eq!(kinds[n - 2], *b"iTXt");
    let itxt = png.chunks()[n - 2].contents().to_vec();
    let mut expected = b"Software\0\0\0\0\0".to_vec();
    expected.extend_from_slice(SOFTWARE.as_bytes());
    assert_eq!(itxt, expected);
}

#[test]
fn finalize_rejects_non_png() {
    assert!(finalize_png(b"definitely not a png", None, true).is_err());
}

#[test]
fn extract_reads_png_blocks_and_ignores_unknown_containers() {
    let meta = Metadata {
        icc: Some(vec![1, 2, 3]),
        exif: Some(b"II\x2a\x00\x08\x00\x00\x00".to_vec()),
    };
    let png = finalize_png(&tiny_png(), Some(&meta), false).unwrap();
    let back = extract_from_bytes(&png, "PNG");
    assert_eq!(back.icc, meta.icc);
    assert_eq!(back.exif, meta.exif);
    assert!(extract_from_bytes(&png, "tiff").is_empty());
    assert!(extract_from_bytes(b"garbage", "jpg").is_empty());
    assert!(extract_from_bytes(b"garbage", "webp").is_empty());
}
