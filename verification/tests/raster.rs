use watermarker::watermark::{trim_transparent, RgbaImage};

#[test]
fn trim_removes_transparent_border() {
    // 20x20 fully transparent with a solid 4x6 opaque block at (5,7).
    let mut img = RgbaImage::new(20, 20);
    for y in 7..13 {
        for x in 5..9 {
            img.put_pixel(x, y, [10, 20, 30, 255]);
        }
    }
    let trimmed = trim_transparent(&img);
    assert_eq!(trimmed.dimensions(), (4, 6));
    assert_eq!(trimmed.get_pixel(0, 0), [10, 20, 30, 255]);
}

#[test]
fn trim_keeps_fully_opaque_image() {
    let img = RgbaImage::from_pixel(8, 5, [1, 2, 3, 255]);
    assert_eq!(trim_transparent(&img).dimensions(), (8, 5));
}

#[test]
fn trim_leaves_fully_transparent_image_unchanged() {
    let img = RgbaImage::new(7, 3);
    let out = trim_transparent(&img);
    assert_eq!(out.dimensions(), (7, 3));
    assert_eq!(out.as_raw(), img.as_raw());
}

#[test]
fn trim_keeps_sparse_corners() {
    // Two single pixels span the box; everything between is kept.
    let mut img = RgbaImage::new(10, 10);
    img.put_pixel(2, 6, [1, 1, 1, 9]);
    img.put_pixel(7, 3, [2, 2, 2, 200]);
    let out = trim_transparent(&img);
    assert_eq!(out.dimensions(), (6, 4));
    assert_eq!(out.get_pixel(0, 3), [1, 1, 1, 9]);
    assert_eq!(out.get_pixel(5, 0), [2, 2, 2, 200]);
    assert_eq!(out.get_pixel(1, 1), [0, 0, 0, 0]);
}

#[test]
fn from_raw_checks_length() {
    assert!(RgbaImage::from_raw(2, 2, vec![0; 16]).is_some());
    assert!(RgbaImage::from_raw(2, 2, vec![0; 15]).is_none());
    let img = RgbaImage::from_raw(1, 2, vec![1, 2, 3, 4, 5, 6, 7, 8]).unwrap();
    assert_eq!(img.get_pixel(0, 1), [5, 6, 7, 8]);
    assert_eq!(img.into_raw(), vec![1, 2, 3, 4, 5, 6, 7, 8]);
}

#[test]
fn trimming_twice_changes_nothing() {
    let mut img = RgbaImage::new(9, 7);
    img.put_pixel(2, 1, [5, 5, 5, 9]);
    img.put_pixel(6, 5, [6, 6, 6, 255]);
    let once = trim_transparent(&img);
    let twice = trim_transparent(&once);
    assert_eq!(once.dimensions(), (5, 5));
    assert_eq!(twice.dimensions(), once.dimensions());
    assert_eq!(twice.as_raw(), once.as_raw());
}
