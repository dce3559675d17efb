use watermarker::metadata::Metadata;
use watermarker::placement::{Anchor, H, V};

#[test]
fn metadata_emptiness() {
    assert!(Metadata::default().is_empty());
    let m = Metadata { icc: Some(vec![1]), exif: None };
    assert!(!m.is_empty());
    let m = Metadata { icc: None, exif: Some(vec![]) };
    assert!(!m.is_empty());
}

#[test]
fn anchors_split_into_bands() {
    assert_eq!(Anchor::TopLeft.horizontal(), H::Left);
    assert_eq!(Anchor::TopLeft.vertical(), V::Top);
    assert_eq!(Anchor::Center.horizontal(), H::Center);
    assert_eq!(Anchor::Center.vertical(), V::Middle);
    assert_eq!(Anchor::BottomRight.horizontal(), H::Right);
    assert_eq!(Anchor::BottomRight.vertical(), V::Bottom);
    assert_eq!(Anchor::MiddleLeft.vertical(), V::Middle);
    assert_eq!(Anchor::BottomCenter.horizontal(), H::Center);
}
