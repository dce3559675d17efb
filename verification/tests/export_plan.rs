use watermarker::export::{
    check_destination, check_destinations, export_metadata, export_png_bytes, summarize,
};
use watermarker::metadata::{extract_from_bytes, Metadata};
use watermarker::preview::encode_png;
use watermarker::watermark::RgbaImage;

fn some_meta() -> Metadata {
    Metadata {
        icc: Some(vec![1, 2, 3]),
        exif: Some(b"MM\x00\x2a\x00\x00\x00\x08".to_vec()),
    }
}

fn contains(haystack: &[u8], needle: &[u8]) -> bool {
    haystack.windows(needle.len()).any(|w| w == needle)
}

#[test]
fn stripping_carries_nothing() {
    let (meta, tag) = export_metadata(true, some_meta());
    assert!(meta.is_none());
    assert!(!tag);
}

#[test]
fn keeping_carries_source_metadata_and_tag() {
    let (meta, tag) = export_metadata(false, some_meta());
    let meta = meta.unwrap();
    assert_eq!(meta.icc, Some(vec![1, 2, 3]));
    assert!(tag);
    let (none, tag) = export_metadata(false, Metadata::default());
    assert!(none.is_none());
    assert!(tag);
}

#[test]
fn existing_destination_needs_overwrite() {
    assert!(check_destination(false, false, "/out/a.png").is_ok());
    assert!(check_destination(true, true, "/out/a.png").is_ok());
    assert_eq!(
        check_destination(true, false, "/out/a.png").unwrap_err(),
        "output already exists: /out/a.png"
    );
}

#[test]
fn export_bytes_transplant_and_tag() {
    let img = RgbaImage::from_pixel(4, 4, [9, 9, 9, 255]);
    let meta = some_meta();
    let out = export_png_bytes(&img, Some(&meta), true).unwrap();
    assert!(contains(&out, b"Software"));
    let back = extract_from_bytes(&out, "png");
    assert_eq!(back.icc, meta.icc);
    assert_eq!(back.exif, meta.exif);
}

#[test]
fn stripped_export_is_the_plain_encoding() {
    let img = RgbaImage::from_pixel(4, 4, [9, 9, 9, 255]);
    let plain = encode_png(&img).unwrap();
    let out = export_png_bytes(&img, None, false).unwrap();
    assert!(!contains(&out, b"Software"));
    assert!(extract_from_bytes(&out, "png").is_empty());
    assert_eq!(
        image::load_from_memory(&out).unwrap().to_rgba8().into_raw(),
        image::load_from_memory(&plain).unwrap().to_rgba8().into_raw()
    );
}

#[test]
fn batch_summary_counts_failures() {
    let s = summarize(5, 3);
    assert_eq!((s.total, s.succeeded, s.failed), (5, 3, 2));
}

#[test]
fn both_destinations_are_checked_first() {
    assert!(check_destinations("/o/a_wm.png", false, Some("/o/a_clean.png"), false, false).is_ok());
    assert_eq!(
        check_destinations("/o/a_wm.png", false, Some("/o/a_clean.png"), true, false).unwrap_err(),
        "output already exists: /o/a_clean.png"
    );
    assert_eq!(
        check_destinations("/o/a_wm.png", true, Some("/o/a_clean.png"), true, false).unwrap_err(),
        "output already exists: /o/a_wm.png"
    );
    assert!(check_destinations("/o/a_wm.png", true, Some("/o/a_clean.png"), true, true).is_ok());
    assert!(check_destinations("/o/a_wm.png", false, None, true, false).is_ok());
}
