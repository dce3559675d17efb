use watermarker::commands::upload_name;
use watermarker::settings::{prune_paths, PersistedPaths};

#[test]
fn upload_name_decodes_header() {
    assert_eq!(upload_name(Some("My%20Photo.png"), "image.png"), "My Photo.png");
    assert_eq!(upload_name(Some("plain.png"), "image.png"), "plain.png");
    assert_eq!(upload_name(Some("a+b.png"), "image.png"), "a+b.png");
}

#[test]
fn upload_name_defaults_without_header() {
    assert_eq!(upload_name(None, "watermark.png"), "watermark.png");
}

#[test]
fn upload_name_keeps_undecodable_header() {
    // %FF decodes to a byte that is not UTF-8 on its own.
    assert_eq!(upload_name(Some("x%FF.png"), "image.png"), "x%FF.png");
}

#[test]
fn pruning_drops_only_missing_paths() {
    let paths = PersistedPaths {
        watermark_path: Some("/cfg/watermarks/logo.svg".to_string()),
        output_dir: Some("/gone".to_string()),
    };
    let (kept, changed) = prune_paths(paths, true, false);
    assert_eq!(kept.watermark_path.as_deref(), Some("/cfg/watermarks/logo.svg"));
    assert_eq!(kept.output_dir, None);
    assert!(changed);

    let none = PersistedPaths { watermark_path: None, output_dir: None };
    let (kept, changed) = prune_paths(none, false, false);
    assert!(kept.watermark_path.is_none() && kept.output_dir.is_none());
    assert!(!changed);
}
