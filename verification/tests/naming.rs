use std::path::Path;

use watermarker::commands::{base_key, is_svg_watermark, looks_like_svg, stored_extension};
use watermarker::decode::is_supported_input;
use watermarker::export::{export_tags, output_file_name, output_path, validate_suffix};
use watermarker::paths::ext_of;
use watermarker::settings::managed_file_name;
use watermarker::state::prefixed_id;

fn file_name(p: &str) -> String {
    Path::new(p).file_name().unwrap().to_str().unwrap().to_string()
}

#[test]
fn recognizes_supported_extensions() {
    for ext in ["png", "PNG", "jpg", "Jpeg", "tiff", "tif", "webp"] {
        let p = format!("a.{ext}");
        assert!(is_supported_input(&p), "{ext} should be supported");
    }
}

#[test]
fn rejects_unsupported_extensions() {
    for name in ["a.gif", "a.bmp", "a.mp4", "noext", "a.svg"] {
        assert!(!is_supported_input(name), "{name} should be rejected");
    }
}

#[test]
fn output_path_uses_stem_suffix_and_png_ext() {
    let p = output_path("IMG_001.jpg", "/out", "_wm", "");
    assert_eq!(file_name(&p), "IMG_001_wm.png");
}

#[test]
fn output_path_replaces_any_input_extension() {
    let p = output_path("a.tiff", "out", "", "");
    assert_eq!(file_name(&p), "a.png");
}

#[test]
fn both_exports_share_suffix_and_differ_by_type_tag() {
    let wm = output_path("scan.tiff", "/out", "_wm", "_watermarked");
    let clean = output_path("scan.tiff", "/out", "_wm", "_clean");
    assert_eq!(file_name(&wm), "scan_wm_watermarked.png");
    assert_eq!(file_name(&clean), "scan_wm_clean.png");
    assert_ne!(wm, clean);
}

#[test]
fn ext_of_lowercases() {
    assert_eq!(ext_of("Photo.JPG"), "jpg");
    assert_eq!(ext_of("no-ext"), "");
}

#[test]
fn validate_suffix_blocks_path_traversal() {
    assert!(validate_suffix("_wm").is_ok());
    assert!(validate_suffix("").is_ok());
    assert!(validate_suffix("-final_v2").is_ok());
    assert!(validate_suffix("/etc/evil").is_err());
    assert!(validate_suffix("..\\..\\Windows\\x").is_err());
    assert!(validate_suffix("_wm/../../sneaky").is_err());
}

#[test]
fn validate_suffix_reports_the_reason() {
    assert_eq!(
        validate_suffix("a..b").unwrap_err(),
        "output suffix must not contain path separators or '..'"
    );
    assert!(validate_suffix("a.b").is_ok());
}

#[test]
fn output_file_name_without_stem_uses_image() {
    assert_eq!(output_file_name(".hidden", "_wm", ""), ".hidden_wm.png");
    assert_eq!(output_file_name("a.b.c", "", "_clean"), "a.b_clean.png");
}

#[test]
fn export_tags_only_when_both_versions() {
    assert_eq!(export_tags(true), ("_watermarked", "_clean"));
    assert_eq!(export_tags(false), ("", ""));
}

#[test]
fn output_path_joins_directory() {
    let p = output_path("x.jpg", "/out", "_wm", "");
    assert!(p == "/out/x_wm.png" || p == "/out\\x_wm.png", "got {p}");
}

#[test]
fn base_key_prefixes_id() {
    assert_eq!(base_key("img3"), "base:img3");
}

#[test]
fn svg_sniffing() {
    assert!(looks_like_svg(b"  <?xml version=\"1.0\"?><svg/>"));
    assert!(looks_like_svg(b"<svg xmlns=\"x\"></svg>"));
    assert!(looks_like_svg(b"<!-- c --><svg></svg>"));
    assert!(!looks_like_svg(b"\x89PNG\r\n\x1a\n"));
    // Only the first 256 bytes are sniffed.
    let mut late = vec![b' '; 300];
    late.extend_from_slice(b"x<svg>");
    assert!(!looks_like_svg(&late));
}

#[test]
fn svg_watermark_by_name_or_content() {
    assert!(is_svg_watermark("logo.SVG", b"\x89PNG"));
    assert!(is_svg_watermark("logo.png", b"<svg></svg>"));
    assert!(!is_svg_watermark("logo.png", b"\x89PNG"));
}

#[test]
fn stored_extension_falls_back_to_sniffing() {
    assert_eq!(stored_extension("logo.PNG", b"<svg/>"), "png");
    assert_eq!(stored_extension("logo", b"<svg/>"), "svg");
    assert_eq!(stored_extension("logo", b"\x89PNG"), "png");
}

#[test]
fn managed_file_name_is_hex_and_ext() {
    assert_eq!(managed_file_name(0xbeef, "svg"), "000000000000beef.svg");
    assert_eq!(managed_file_name(u64::MAX, ""), "ffffffffffffffff.bin");
}

#[test]
fn prefixed_id_appends_decimal() {
    assert_eq!(prefixed_id("img", 0), "img0");
    assert_eq!(prefixed_id("img", 1234567), "img1234567");
    assert_eq!(prefixed_id("", u64::MAX), "18446744073709551615");
}

#[test]
fn distinct_hashes_get_distinct_names() {
    assert_ne!(managed_file_name(1, "png"), managed_file_name(16, "png"));
    assert_eq!(managed_file_name(7, "png"), managed_file_name(7, "png"));
}

#[test]
fn distinct_counters_get_distinct_ids() {
    assert_ne!(prefixed_id("img", 1), prefixed_id("img", 11));
    assert_ne!(prefixed_id("img", 10), prefixed_id("img", 1));
}

#[test]
fn accepted_suffix_keeps_file_in_directory() {
    for suffix in ["_wm", "", "-final_v2"] {
        assert!(validate_suffix(suffix).is_ok());
        let name = output_file_name("scan.tiff", suffix, "_clean");
        assert!(!name.contains('/') && !name.contains('\\'), "{name}");
    }
}

#[test]
fn full_paths_use_their_file_name() {
    assert!(is_supported_input("/home/user/Pictures/Photo.JPG"));
    assert!(!is_supported_input("/home/user/some.dir/noext"));
    assert_eq!(ext_of("/x/y.z/Photo.TIFF"), "tiff");
    assert_eq!(output_file_name("/in/scan.tiff", "_wm", ""), "scan_wm.png");
}

#[test]
fn colons_and_drive_paths_keep_their_extension() {
    assert!(is_supported_input("12:30.jpg"));
    assert_eq!(ext_of("12:30.JPG"), "jpg");
    assert_eq!(output_file_name("12:30.jpg", "_wm", ""), "12:30_wm.png");
    assert_eq!(file_name(&output_path("12:30.jpg", "/out", "_wm", "")), "12:30_wm.png");
    // Both readings of a Windows absolute path agree on its extension.
    assert!(is_supported_input("C:\\photos\\a.png"));
}
