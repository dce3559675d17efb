//! Raster watermarks: the library's RGBA raster and the trimming of
//! transparent borders.
//!
//! A raster watermark's box should hug its artwork, so fully transparent rows
//! and columns around it are cropped away before placement.

use resvg::usvg;
use vstd::prelude::*;
use vstd::slice::slice_subrange;

verus! {

/// What a raster holds: its size and its row-major RGBA bytes.
pub struct RasterView {
    pub width: nat,
    pub height: nat,
    pub data: Seq<u8>,
}

/// A straight (non-premultiplied) RGBA raster with 8 bits per channel: the
/// pixel `(x, y)` occupies bytes `4 * (y * width + x) ..` of the data.
pub struct RgbaImage {
    width: u32,
    height: u32,
    data: Vec<u8>,
}

/// Byte index of channel `c` of pixel `(x, y)` in a raster `w` pixels wide.
pub open spec fn byte_index(w: nat, x: int, y: int, c: int) -> int {
    4 * (y * w + x) + c
}

/// Channel `c` of pixel `(x, y)`.
pub open spec fn channel(v: RasterView, x: int, y: int, c: int) -> u8 {
    v.data[byte_index(v.width, x, y, c)]
}

/// The pixel `(x, y)` lies in the raster and is not fully transparent.
pub open spec fn opaque(v: RasterView, x: int, y: int) -> bool {
    0 <= x < v.width && 0 <= y < v.height && channel(v, x, y, 3) > 0
}

/// The raster holds a pixel that is not fully transparent.
pub open spec fn has_content(v: RasterView) -> bool {
    exists|x: int, y: int| opaque(v, x, y)
}

/// Every non-transparent pixel lies in the box `[x0, x1] x [y0, y1]`, and each
/// side of the box touches one: the tightest box around the content.
pub open spec fn tight_box(v: RasterView, x0: int, y0: int, x1: int, y1: int) -> bool {
    &&& forall|x: int, y: int| opaque(v, x, y) ==> x0 <= x <= x1 && y0 <= y <= y1
    &&& exists|y: int| opaque(v, x0, y)
    &&& exists|y: int| opaque(v, x1, y)
    &&& exists|x: int| opaque(v, x, y0)
    &&& exists|x: int| opaque(v, x, y1)
}

/// The bytes of rows `y0 .. y0 + k` of `v`, each restricted to the columns
/// `x0 .. x0 + cw`.
pub open spec fn crop_rows(v: RasterView, x0: int, y0: int, cw: int, k: nat) -> Seq<u8>
    decreases k,
{
    if k == 0 {
        Seq::empty()
    } else {
        let y = y0 + k - 1;
        crop_rows(v, x0, y0, cw, (k - 1) as nat) + v.data.subrange(
            byte_index(v.width, x0, y, 0),
            byte_index(v.width, x0 + cw, y, 0),
        )
    }
}

/// `r` is the `cw` x `ch` region of `v` whose top-left pixel is `(x0, y0)`.
pub open spec fn is_crop(r: RasterView, v: RasterView, x0: int, y0: int, cw: nat, ch: nat) -> bool {
    &&& r.width == cw
    &&& r.height == ch
    &&& r.data == crop_rows(v, x0, y0, cw as int, ch)
}

/// `4 * (y * w + x) + c` stays inside a `w` x `h` raster.
proof fn lemma_index_bound(w: int, h: int, x: int, y: int, c: int)
    requires
        0 <= x < w,
        0 <= y < h,
        0 <= c < 4,
    ensures
        0 <= 4 * (y * w + x) + c < 4 * w * h,
        4 * (y * w + x) + c + 1 <= 4 * (y * w + w),
        4 * (y * w + w) <= 4 * w * h,
{
    assert(0 <= y * w) by (nonlinear_arith)
        requires
            0 <= y,
            0 <= w,
    ;
    assert(y * w + w <= w * h) by (nonlinear_arith)
        requires
            y < h,
            0 <= w,
    ;
    assert(4 * (w * h) == 4 * w * h) by (nonlinear_arith);
}

impl RgbaImage {
    #[verifier::type_invariant]
    spec fn well_formed(self) -> bool {
        self.data@.len() == 4 * self.width * self.height
    }

    /// Size and bytes of this raster.
    pub closed spec fn view(&self) -> RasterView {
        RasterView { width: self.width as nat, height: self.height as nat, data: self.data@ }
    }

    /// A `width` x `height` raster with every pixel set to `pixel`.
    pub fn from_pixel(width: u32, height: u32, pixel: [u8; 4]) -> (r: RgbaImage)
        requires
            4 * width * height <= usize::MAX,
        ensures
            r.view().width == width,
            r.view().height == height,
            forall|x: int, y: int, c: int|
                0 <= x < width && 0 <= y < height && 0 <= c < 4 ==> #[trigger] channel(
                    r.view(),
                    x,
                    y,
                    c,
                ) == pixel@[c],
    {
        proof {
            assert(width * height <= 4 * width * height) by (nonlinear_arith);
            assert(4 * width * height == 4 * (width * height)) by (nonlinear_arith);
        }
        let wh = (width as usize) * (height as usize);
        let n = 4 * wh;
        proof {
            assert(n % 4 == 0) by (nonlinear_arith)
                requires
                    n == 4 * wh,
            ;
        }
        let mut data: Vec<u8> = Vec::new();
        let mut i: usize = 0;
        while i < n
            invariant
                i <= n,
                n == 4 * width * height,
                n % 4 == 0,
                i % 4 == 0,
                data@.len() == i,
                forall|k: int| 0 <= k < i ==> data@[k] == pixel@[k % 4],
            decreases n - i,
        {
            data.push(pixel[0]);
            data.push(pixel[1]);
            data.push(pixel[2]);
            data.push(pixel[3]);
            i = i + 4;
        }
        let r = RgbaImage { width, height, data };
        proof {
            assert forall|x: int, y: int, c: int|
                0 <= x < width && 0 <= y < height && 0 <= c < 4 implies #[trigger] channel(
                r.view(),
                x,
                y,
                c,
            ) == pixel@[c] by {
                lemma_index_bound(width as int, height as int, x, y, c);
                assert((4 * (y * width + x) + c) % 4 == c) by (nonlinear_arith)
                    requires
                        0 <= c < 4,
                        0 <= y * width + x,
                ;
            }
        }
        r
    }

    /// A fully transparent black `width` x `height` raster.
    pub fn new(width: u32, height: u32) -> (r: RgbaImage)
        requires
            4 * width * height <= usize::MAX,
        ensures
            r.view().width == width,
            r.view().height == height,
            forall|x: int, y: int, c: int|
                0 <= x < width && 0 <= y < height && 0 <= c < 4 ==> #[trigger] channel(
                    r.view(),
                    x,
                    y,
                    c,
                ) == 0,
    {
        let r = Self::from_pixel(width, height, [0, 0, 0, 0]);
        proof {
            let z: [u8; 4] = [0, 0, 0, 0];
            assert(forall|c: int| 0 <= c < 4 ==> z@[c] == 0);
        }
        r
    }

    /// A raster over `data`, which holds exactly `4 * width * height` bytes.
    pub(crate) fn from_exact(width: u32, height: u32, data: Vec<u8>) -> (r: RgbaImage)
        requires
            data@.len() == 4 * width * height,
        ensures
            r.view() == (RasterView { width: width as nat, height: height as nat, data: data@ }),
    {
        RgbaImage { width, height, data }
    }

    /// A raster over `data` when it holds exactly `4 * width * height` bytes.
    pub fn from_raw(width: u32, height: u32, data: Vec<u8>) -> (r: Option<RgbaImage>)
        ensures
            r is Some <==> data@.len() == 4 * width * height,
            r matches Some(img) ==> img.view() == (RasterView {
                width: width as nat,
                height: height as nat,
                data: data@,
            }),
    {
        let len = data.len();
        let w = width as u64;
        let h = height as u64;
        proof {
            assert(w * h <= 0xffff_ffffu64 * 0xffff_ffffu64) by (nonlinear_arith)
                requires
                    w <= 0xffff_ffff,
                    h <= 0xffff_ffff,
            ;
            assert(4 * width * height == 4 * (w * h)) by (nonlinear_arith)
                requires
                    w == width,
                    h == height,
            ;
        }
        let wh = w * h;
        if wh > (u64::MAX / 4) {
            return None;
        }
        if (len as u64) == 4 * wh {
            Some(RgbaImage { width, height, data })
        } else {
            None
        }
    }

    /// Width in pixels.
    pub fn width(&self) -> (r: u32)
        ensures
            r == self.view().width,
    {
        self.width
    }

    /// Height in pixels.
    pub fn height(&self) -> (r: u32)
        ensures
            r == self.view().height,
    {
        self.height
    }

    /// `(width, height)` in pixels.
    pub fn dimensions(&self) -> (r: (u32, u32))
        ensures
            r.0 == self.view().width,
            r.1 == self.view().height,
    {
        (self.width, self.height)
    }

    /// The raw row-major RGBA bytes.
    pub fn as_raw(&self) -> (r: &Vec<u8>)
        ensures
            r@ == self.view().data,
            r@.len() == 4 * self.view().width * self.view().height,
    {
        proof {
            use_type_invariant(self);
        }
        &self.data
    }

    /// The raw row-major RGBA bytes, consuming the raster.
    pub fn into_raw(self) -> (r: Vec<u8>)
        ensures
            r@ == self.view().data,
    {
        self.data
    }

    /// Byte index of channel `c` of pixel `(x, y)`.
    fn index_of(&self, x: u32, y: u32, c: usize) -> (r: usize)
        requires
            x < self.view().width,
            y < self.view().height,
            c < 4,
        ensures
            r == byte_index(self.view().width, x as int, y as int, c as int),
            r < self.view().data.len(),
    {
        proof {
            use_type_invariant(self);
            lemma_index_bound(self.width as int, self.height as int, x as int, y as int, c as int);
        }
        let len = self.data.len();
        proof {
            assert(y * self.width + x <= 4 * (y * self.width + x) + c);
        }
        4 * ((y as usize) * (self.width as usize) + (x as usize)) + c
    }

    /// The RGBA channels of pixel `(x, y)`.
    pub fn get_pixel(&self, x: u32, y: u32) -> (r: [u8; 4])
        requires
            x < self.view().width,
            y < self.view().height,
        ensures
            forall|c: int| 0 <= c < 4 ==> r@[c] == channel(self.view(), x as int, y as int, c),
    {
        let i0 = self.index_of(x, y, 0);
        let i1 = self.index_of(x, y, 1);
        let i2 = self.index_of(x, y, 2);
        let i3 = self.index_of(x, y, 3);
        [self.data[i0], self.data[i1], self.data[i2], self.data[i3]]
    }

    /// Set pixel `(x, y)` to `pixel`, leaving every other byte unchanged.
    pub fn put_pixel(&mut self, x: u32, y: u32, pixel: [u8; 4])
        requires
            x < old(self).view().width,
            y < old(self).view().height,
        ensures
            final(self).view().width == old(self).view().width,
            final(self).view().height == old(self).view().height,
            final(self).view().data.len() == old(self).view().data.len(),
            forall|c: int|
                0 <= c < 4 ==> channel(final(self).view(), x as int, y as int, c) == pixel@[c],
            forall|k: int|
                0 <= k < old(self).view().data.len() && !(byte_index(
                    old(self).view().width,
                    x as int,
                    y as int,
                    0,
                ) <= k < byte_index(old(self).view().width, x as int, y as int, 4))
                    ==> #[trigger] final(self).view().data[k] == old(self).view().data[k],
    {
        let i0 = self.index_of(x, y, 0);
        let i1 = self.index_of(x, y, 1);
        let i2 = self.index_of(x, y, 2);
        let i3 = self.index_of(x, y, 3);
        let empty: Vec<u8> = Vec::new();
        assert(empty@.len() == 4 * 0 * 0);
        let mut taken = RgbaImage { width: 0, height: 0, data: empty };
        std::mem::swap(self, &mut taken);
        proof {
            use_type_invariant(&taken);
        }
        let RgbaImage { width, height, mut data } = taken;
        data.set(i0, pixel[0]);
        data.set(i1, pixel[1]);
        data.set(i2, pixel[2]);
        data.set(i3, pixel[3]);
        *self = RgbaImage { width, height, data };
    }
}

/// The pixel `(x, y)` comes before row `row`, or before column `col` in row
/// `row`.
pub open spec fn scanned(x: int, y: int, col: int, row: int) -> bool {
    y < row || (y == row && x < col)
}

/// Bounds of the non-transparent pixels scanned so far.
pub struct Extent {
    pub found: bool,
    pub min_x: u32,
    pub min_y: u32,
    pub max_x: u32,
    pub max_y: u32,
}

/// `e` describes the non-transparent pixels among those scanned up to
/// `(col, row)`: none when `!e.found`, else the tightest box around them.
pub open spec fn extent_ok(v: RasterView, e: Extent, col: int, row: int) -> bool {
    &&& !e.found ==> forall|x: int, y: int| scanned(x, y, col, row) ==> !opaque(v, x, y)
    &&& e.found ==> {
        &&& e.min_x <= e.max_x < v.width
        &&& e.min_y <= e.max_y < v.height
        &&& forall|x: int, y: int|
            scanned(x, y, col, row) && opaque(v, x, y) ==> e.min_x <= x <= e.max_x && e.min_y <= y
                <= e.max_y
        &&& exists|y: int| opaque(v, e.min_x as int, y)
        &&& exists|y: int| opaque(v, e.max_x as int, y)
        &&& exists|x: int| opaque(v, x, e.min_y as int)
        &&& exists|x: int| opaque(v, x, e.max_y as int)
    }
}

/// Widen `e` to take in the non-transparent pixel `(x, y)`.
fn widen(e: Extent, x: u32, y: u32) -> (r: Extent)
    ensures
        r.found,
        !e.found ==> r.min_x == x && r.max_x == x && r.min_y == y && r.max_y == y,
        e.found ==> {
            &&& r.min_x == (if x < e.min_x {
                x
            } else {
                e.min_x
            })
            &&& r.max_x == (if x > e.max_x {
                x
            } else {
                e.max_x
            })
            &&& r.min_y == (if y < e.min_y {
                y
            } else {
                e.min_y
            })
            &&& r.max_y == (if y > e.max_y {
                y
            } else {
                e.max_y
            })
        },
{
    if !e.found {
        Extent { found: true, min_x: x, min_y: y, max_x: x, max_y: y }
    } else {
        Extent {
            found: true,
            min_x: if x < e.min_x {
                x
            } else {
                e.min_x
            },
            min_y: if y < e.min_y {
                y
            } else {
                e.min_y
            },
            max_x: if x > e.max_x {
                x
            } else {
                e.max_x
            },
            max_y: if y > e.max_y {
                y
            } else {
                e.max_y
            },
        }
    }
}

/// Scan every pixel and return the extent of the non-transparent ones.
fn content_extent(img: &RgbaImage) -> (e: Extent)
    ensures
        extent_ok(img.view(), e, 0, img.view().height as int),
{
    let ghost v = img.view();
    let w = img.width();
    let h = img.height();
    let mut e = Extent { found: false, min_x: 0, min_y: 0, max_x: 0, max_y: 0 };
    let mut y: u32 = 0;
    while y < h
        invariant
            v == img.view(),
            w == v.width,
            h == v.height,
            y <= h,
            extent_ok(v, e, 0, y as int),
        decreases h - y,
    {
        let mut x: u32 = 0;
        while x < w
            invariant
                v == img.view(),
                w == v.width,
                h == v.height,
                y < h,
                x <= w,
                extent_ok(v, e, x as int, y as int),
            decreases w - x,
        {
            let px = img.get_pixel(x, y);
            if px[3] > 0 {
                let ghost old_e = e;
                e = widen(e, x, y);
                proof {
                    assert(opaque(v, x as int, y as int));
                    if old_e.found {
                        if x < old_e.min_x {
                            assert(opaque(v, e.min_x as int, y as int));
                        }
                        if x > old_e.max_x {
                            assert(opaque(v, e.max_x as int, y as int));
                        }
                        if y < old_e.min_y {
                            assert(opaque(v, x as int, e.min_y as int));
                        }
                        if y > old_e.max_y {
                            assert(opaque(v, x as int, e.max_y as int));
                        }
                    } else {
                        assert(opaque(v, e.min_x as int, y as int));
                        assert(opaque(v, x as int, e.min_y as int));
                    }
                    assert forall|xx: int, yy: int|
                        scanned(xx, yy, x + 1, y as int) && opaque(v, xx, yy) implies e.min_x <= xx
                        <= e.max_x && e.min_y <= yy <= e.max_y by {
                        if !(xx == x && yy == y) {
                            assert(scanned(xx, yy, x as int, y as int));
                        }
                    }
                }
            } else {
                proof {
                    assert(!opaque(v, x as int, y as int));
                    assert forall|xx: int, yy: int|
                        scanned(xx, yy, x + 1, y as int) && opaque(v, xx, yy) implies scanned(
                        xx,
                        yy,
                        x as int,
                        y as int,
                    ) by {}
                }
            }
            x = x + 1;
        }
        proof {
            assert forall|xx: int, yy: int|
                scanned(xx, yy, 0, y + 1) && opaque(v, xx, yy) implies scanned(
                xx,
                yy,
                w as int,
                y as int,
            ) by {}
        }
        y = y + 1;
    }
    e
}

/// `v` holds a non-transparent pixel exactly when a full scan finds one.
proof fn lemma_scan_complete(v: RasterView, e: Extent)
    requires
        extent_ok(v, e, 0, v.height as int),
    ensures
        e.found == has_content(v),
        e.found ==> tight_box(v, e.min_x as int, e.min_y as int, e.max_x as int, e.max_y as int),
{
    if has_content(v) {
        let (x, y) = choose|x: int, y: int| opaque(v, x, y);
        assert(scanned(x, y, 0, v.height as int));
    }
    if e.found {
        assert forall|x: int, y: int| opaque(v, x, y) implies e.min_x <= x <= e.max_x && e.min_y
            <= y <= e.max_y by {
            assert(scanned(x, y, 0, v.height as int));
        }
        let y = choose|y: int| opaque(v, e.min_x as int, y);
        assert(opaque(v, e.min_x as int, y));
    }
}

/// A crop of whole rows has four bytes per pixel of the box.
proof fn lemma_crop_rows_len(v: RasterView, x0: int, y0: int, cw: int, k: nat)
    requires
        0 <= x0,
        0 <= cw,
        x0 + cw <= v.width,
        0 <= y0,
        y0 + k <= v.height,
        v.data.len() == 4 * v.width * v.height,
    ensures
        crop_rows(v, x0, y0, cw, k).len() == 4 * cw * k,
    decreases k,
{
    if k > 0 {
        let y = y0 + k - 1;
        lemma_crop_rows_len(v, x0, y0, cw, (k - 1) as nat);
        lemma_row_bounds(v.width as int, v.height as int, x0, y, cw);
        assert(4 * cw * k == 4 * cw * (k - 1) + 4 * cw) by (nonlinear_arith);
        assert(byte_index(v.width, x0 + cw, y, 0) - byte_index(v.width, x0, y, 0) == 4 * cw);
    } else {
        assert(4 * cw * k == 0) by (nonlinear_arith)
            requires
                k == 0,
        ;
    }
}

/// The bytes of columns `x0 .. x0 + cw` of row `y` lie inside the raster.
proof fn lemma_row_bounds(w: int, h: int, x0: int, y: int, cw: int)
    requires
        0 <= x0,
        0 <= cw,
        x0 + cw <= w,
        0 <= y < h,
    ensures
        0 <= 4 * (y * w + x0),
        4 * (y * w + x0) <= 4 * (y * w + x0 + cw),
        4 * (y * w + x0 + cw) <= 4 * w * h,
{
    assert(0 <= y * w) by (nonlinear_arith)
        requires
            0 <= y,
            0 <= w,
    ;
    assert(y * w + w <= w * h) by (nonlinear_arith)
        requires
            y < h,
            0 <= w,
    ;
    assert(4 * (w * h) == 4 * w * h) by (nonlinear_arith);
}

/// The `cw` x `ch` region of `img` whose top-left pixel is `(x0, y0)`.
fn crop(img: &RgbaImage, x0: u32, y0: u32, cw: u32, ch: u32) -> (r: RgbaImage)
    requires
        x0 + cw <= img.view().width,
        y0 + ch <= img.view().height,
    ensures
        is_crop(r.view(), img.view(), x0 as int, y0 as int, cw as nat, ch as nat),
{
    proof {
        use_type_invariant(img);
    }
    let ghost v = img.view();
    let len = img.data.len();
    let w = img.width;
    let mut out: Vec<u8> = Vec::new();
    let mut k: u32 = 0;
    while k < ch
        invariant
            v == img.view(),
            v.data.len() == 4 * v.width * v.height,
            len == v.data.len(),
            w == v.width,
            x0 + cw <= v.width,
            y0 + ch <= v.height,
            k <= ch,
            out@ == crop_rows(v, x0 as int, y0 as int, cw as int, k as nat),
        decreases ch - k,
    {
        let y = y0 + k;
        proof {
            lemma_row_bounds(v.width as int, v.height as int, x0 as int, y as int, cw as int);
        }
        let start = 4 * ((y as usize) * (w as usize) + (x0 as usize));
        let end = start + 4 * (cw as usize);
        let ghost before = out@;
        let row = slice_subrange(img.data.as_slice(), start, end);
        let mut j: usize = 0;
        while j < row.len()
            invariant
                j <= row@.len(),
                out@ == before + row@.take(j as int),
            decreases row@.len() - j,
        {
            out.push(row[j]);
            proof {
                assert(row@.take(j + 1) =~= row@.take(j as int).push(row@[j as int]));
            }
            j = j + 1;
        }
        proof {
            assert(row@.take(j as int) =~= row@);
            assert(start == byte_index(v.width, x0 as int, y as int, 0));
            assert(end == byte_index(v.width, x0 + cw, y as int, 0));
        }
        k = k + 1;
    }
    proof {
        lemma_crop_rows_len(v, x0 as int, y0 as int, cw as int, ch as nat);
        assert(4 * cw * ch == 4 * (cw as int) * (ch as int));
    }
    RgbaImage { width: cw, height: ch, data: out }
}

/// A copy of `img`.
fn copy_image(img: &RgbaImage) -> (r: RgbaImage)
    ensures
        r.view() == img.view(),
{
    proof {
        use_type_invariant(img);
    }
    let data = vstd::slice::slice_to_vec(img.data.as_slice());
    RgbaImage { width: img.width, height: img.height, data }
}

/// `r` is `v` with its fully transparent borders cropped: the tight box
/// around the content when there is any, `v` itself otherwise.
pub open spec fn is_trim_of(r: RasterView, v: RasterView) -> bool {
    &&& !has_content(v) ==> r == v
    &&& has_content(v) ==> exists|x0: int, y0: int, x1: int, y1: int|
        {
            &&& tight_box(v, x0, y0, x1, y1)
            &&& is_crop(r, v, x0, y0, (x1 - x0 + 1) as nat, (y1 - y0 + 1) as nat)
        }
}

/// Crop fully-transparent borders from a raster image, returning the tight
/// content. A fully-transparent image is returned unchanged.
pub fn trim_transparent(img: &RgbaImage) -> (r: RgbaImage)
    ensures
        is_trim_of(r.view(), img.view()),
{
    let e = content_extent(img);
    proof {
        lemma_scan_complete(img.view(), e);
    }
    if !e.found {
        return copy_image(img);
    }
    let r = crop(img, e.min_x, e.min_y, e.max_x - e.min_x + 1, e.max_y - e.min_y + 1);
    proof {
        assert(tight_box(img.view(), e.min_x as int, e.min_y as int, e.max_x as int, e.max_y as int));
        assert(is_crop(
            r.view(),
            img.view(),
            e.min_x as int,
            e.min_y as int,
            (e.max_x - e.min_x + 1) as nat,
            (e.max_y - e.min_y + 1) as nat,
        ));
    }
    r
}

/// The tightest box around the content is unique.
pub proof fn tight_box_is_unique(
    v: RasterView,
    a: (int, int, int, int),
    b: (int, int, int, int),
)
    requires
        tight_box(v, a.0, a.1, a.2, a.3),
        tight_box(v, b.0, b.1, b.2, b.3),
    ensures
        a == b,
{
    let ya = choose|y: int| opaque(v, a.0, y);
    let yb = choose|y: int| opaque(v, b.0, y);
    assert(opaque(v, a.0, ya));
    assert(opaque(v, b.0, yb));
    let yc = choose|y: int| opaque(v, a.2, y);
    let yd = choose|y: int| opaque(v, b.2, y);
    assert(opaque(v, a.2, yc));
    assert(opaque(v, b.2, yd));
    let xa = choose|x: int| opaque(v, x, a.1);
    let xb = choose|x: int| opaque(v, x, b.1);
    assert(opaque(v, xa, a.1));
    assert(opaque(v, xb, b.1));
    let xc = choose|x: int| opaque(v, x, a.3);
    let xd = choose|x: int| opaque(v, x, b.3);
    assert(opaque(v, xc, a.3));
    assert(opaque(v, xd, b.3));
}

/// Channel `c` of pixel `(x, y)` of a crop is channel `c` of pixel
/// `(x0 + x, y0 + y)` of the source.
proof fn lemma_crop_channel(
    v: RasterView,
    x0: int,
    y0: int,
    cw: int,
    k: nat,
    x: int,
    y: int,
    c: int,
)
    requires
        0 <= x0,
        0 <= cw,
        x0 + cw <= v.width,
        0 <= y0,
        y0 + k <= v.height,
        v.data.len() == 4 * v.width * v.height,
        0 <= x < cw,
        0 <= y < k,
        0 <= c < 4,
    ensures
        crop_rows(v, x0, y0, cw, k)[4 * (y * cw + x) + c] == channel(v, x0 + x, y0 + y, c),
    decreases k,
{
    let km = (k - 1) as nat;
    let prev = crop_rows(v, x0, y0, cw, km);
    let row = y0 + km;
    lemma_crop_rows_len(v, x0, y0, cw, km);
    lemma_row_bounds(v.width as int, v.height as int, x0, row, cw);
    let seg = v.data.subrange(byte_index(v.width, x0, row, 0), byte_index(v.width, x0 + cw, row, 0));
    assert(crop_rows(v, x0, y0, cw, k) == prev + seg);
    let i = 4 * (y * cw + x) + c;
    if y < km {
        assert(i < 4 * cw * km) by (nonlinear_arith)
            requires
                i == 4 * (y * cw + x) + c,
                0 <= y < km,
                0 <= x < cw,
                0 <= c < 4,
        ;
        assert(0 <= i) by (nonlinear_arith)
            requires
                i == 4 * (y * cw + x) + c,
                0 <= y,
                0 <= x,
                0 <= c,
                0 <= cw,
        ;
        lemma_crop_channel(v, x0, y0, cw, km, x, y, c);
    } else {
        assert(i - 4 * cw * km == 4 * x + c) by (nonlinear_arith)
            requires
                i == 4 * (y * cw + x) + c,
                y == km,
        ;
        assert(byte_index(v.width, x0, row, 0) + 4 * x + c == byte_index(v.width, x0 + x, y0 + y, c));
    }
}

/// Cropping whole rows of a raster from its top-left corner gives its leading
/// bytes.
proof fn lemma_crop_whole(r: RasterView, k: nat)
    requires
        r.data.len() == 4 * r.width * r.height,
        k <= r.height,
    ensures
        crop_rows(r, 0, 0, r.width as int, k) == r.data.subrange(0, (4 * r.width * k) as int),
    decreases k,
{
    let w = r.width as int;
    if k > 0 {
        let km = (k - 1) as nat;
        lemma_crop_whole(r, km);
        lemma_row_bounds(w, r.height as int, 0, km as int, w);
        assert(byte_index(r.width, 0, km as int, 0) == 4 * w * km) by (nonlinear_arith)
            requires
                w == r.width,
        ;
        assert(byte_index(r.width, w, km as int, 0) == 4 * w * k) by (nonlinear_arith)
            requires
                w == r.width,
                k == km + 1,
        ;
        assert(r.data.subrange(0, 4 * w * km) + r.data.subrange(4 * w * km, 4 * w * k) =~= r.data.subrange(
            0,
            4 * w * k,
        ));
    } else {
        assert(4 * w * k == 0) by (nonlinear_arith)
            requires
                k == 0,
        ;
        assert(r.data.subrange(0, 0) =~= Seq::<u8>::empty());
    }
}

/// Trimming is idempotent: trimming a raster that was already trimmed gives
/// it back unchanged.
pub proof fn trim_is_idempotent(v: RasterView, r: RasterView, r2: RasterView)
    requires
        v.data.len() == 4 * v.width * v.height,
        is_trim_of(r, v),
        is_trim_of(r2, r),
    ensures
        r2 == r,
{
    if has_content(v) {
        let (x0, y0, x1, y1) = choose|x0: int, y0: int, x1: int, y1: int|
            {
                &&& tight_box(v, x0, y0, x1, y1)
                &&& is_crop(r, v, x0, y0, (x1 - x0 + 1) as nat, (y1 - y0 + 1) as nat)
            };
        let cw = x1 - x0 + 1;
        let ch = y1 - y0 + 1;
        let ya = choose|y: int| opaque(v, x0, y);
        let yb = choose|y: int| opaque(v, x1, y);
        let xa = choose|x: int| opaque(v, x, y0);
        let xb = choose|x: int| opaque(v, x, y1);
        assert(opaque(v, x0, ya) && opaque(v, x1, yb) && opaque(v, xa, y0) && opaque(v, xb, y1));
        lemma_crop_rows_len(v, x0, y0, cw, ch as nat);
        assert(4 * cw * ch == 4 * r.width * r.height);
        assert forall|x: int, y: int| 0 <= x < cw && 0 <= y < ch implies #[trigger] channel(r, x, y, 3)
            == channel(v, x0 + x, y0 + y, 3) by {
            lemma_crop_channel(v, x0, y0, cw, ch as nat, x, y, 3);
        }
        assert(channel(r, 0, ya - y0, 3) == channel(v, x0, ya, 3));
        assert(channel(r, x1 - x0, yb - y0, 3) == channel(v, x1, yb, 3));
        assert(channel(r, xa - x0, 0, 3) == channel(v, xa, y0, 3));
        assert(channel(r, xb - x0, y1 - y0, 3) == channel(v, xb, y1, 3));
        assert(opaque(r, 0, ya - y0));
        assert(opaque(r, x1 - x0, yb - y0));
        assert(opaque(r, xa - x0, 0));
        assert(opaque(r, xb - x0, y1 - y0));
        assert(tight_box(r, 0, 0, cw - 1, ch - 1));
        assert(has_content(r));
        let (a0, b0, a1, b1) = choose|a0: int, b0: int, a1: int, b1: int|
            {
                &&& tight_box(r, a0, b0, a1, b1)
                &&& is_crop(r2, r, a0, b0, (a1 - a0 + 1) as nat, (b1 - b0 + 1) as nat)
            };
        tight_box_is_unique(r, (a0, b0, a1, b1), (0, 0, cw - 1, ch - 1));
        lemma_crop_whole(r, r.height);
        assert(r.data.subrange(0, (4 * r.width * r.height) as int) =~= r.data);
        assert(r2.data =~= r.data);
    }
}

/// The RGBA bytes that `image::imageops::resize` with the Lanczos3 filter
/// produces from a `w0` x `h0` raster holding `data`, at `w` x `h`.
pub uninterp spec fn lanczos3_resized(w0: u32, h0: u32, data: Seq<u8>, w: u32, h: u32) -> Seq<u8>;

/// `image::imageops::resize(.., FilterType::Lanczos3)` on a copy of the
/// raster, returning the new buffer's bytes. Claimed of its source: the
/// bytes are a function of the arguments (named `lanczos3_resized`), there
/// are four per pixel of the new size, and resizing to the same size copies
/// the raster. The intermediate and final buffers must fit in memory
/// addresses (`ImageBuffer::new` panics otherwise), which the `requires`
/// states.
#[verifier::external_body]
fn lanczos3_resize(img: &RgbaImage, w: u32, h: u32) -> (r: Vec<u8>)
    requires
        16 * img.view().width * h <= usize::MAX,
        4 * w * h <= usize::MAX,
    ensures
        r@ == lanczos3_resized(
            img.view().width as u32,
            img.view().height as u32,
            img.view().data,
            w,
            h,
        ),
        r@.len() == 4 * w * h,
        w == img.view().width && h == img.view().height ==> r@ == img.view().data,
{
    let src = image::RgbaImage::from_raw(img.width, img.height, img.data.clone()).unwrap();
    image::imageops::resize(&src, w, h, image::imageops::FilterType::Lanczos3).into_raw()
}

/// A raster watermark rasterized at `w` x `h` pixels (at least one each),
/// resampled with the Lanczos3 filter.
pub fn rasterize_raster(img: &RgbaImage, w: u32, h: u32) -> (r: RgbaImage)
    requires
        16 * img.view().width * (if h == 0 { 1 } else { h as int }) <= usize::MAX,
        4 * (if w == 0 { 1 } else { w as int }) * (if h == 0 { 1 } else { h as int }) <= usize::MAX,
    ensures
        ({
            let w1: u32 = if w == 0 { 1 } else { w };
            let h1: u32 = if h == 0 { 1 } else { h };
            r.view() == RasterView {
                width: w1 as nat,
                height: h1 as nat,
                data: lanczos3_resized(
                    img.view().width as u32,
                    img.view().height as u32,
                    img.view().data,
                    w1,
                    h1,
                ),
            }
        }),
{
    let w1: u32 = if w == 0 { 1 } else { w };
    let h1: u32 = if h == 0 { 1 } else { h };
    let data = lanczos3_resize(img, w1, h1);
    RgbaImage::from_exact(w1, h1, data)
}

#[verifier::external_type_specification]
#[verifier::external_body]
pub struct ExSvgTree(usvg::Tree);

#[verifier::external_type_specification]
#[verifier::external_body]
pub struct ExSvgError(usvg::Error);

#[verifier::external_type_specification]
#[verifier::external_body]
pub struct ExSvgOptions<'a>(usvg::Options<'a>);

#[verifier::external_type_specification]
#[verifier::external_body]
pub struct ExSvgImageKind(usvg::ImageKind);

/// Why an SVG watermark could not be used.
#[derive(Debug)]
pub enum WatermarkError {
    Svg(usvg::Error),
}

/// `usvg` parses `data` as an SVG document under the options that
/// [`parse_svg`] sets (data URLs honoured, other image links refused).
pub uninterp spec fn svg_parses(data: Seq<u8>) -> bool;

/// The resolver for `<image href>` links that are not data URLs: it resolves
/// none, so a watermark cannot pull a local file into its rendering.
fn refuse_linked_image(href: &str, opts: &usvg::Options) -> (r: Option<usvg::ImageKind>)
    ensures
        r is None,
{
    None
}

/// `usvg::Tree::from_data` with the default options, except that links to
/// images other than data URLs go to [`refuse_linked_image`]. Claimed of its
/// source: whether it succeeds is a function of the bytes (named
/// `svg_parses`); and bytes that are neither gzip-compressed (opening with
/// `1f 8b`) nor valid UTF-8 are refused.
#[verifier::external_body]
fn parse_svg(data: &[u8]) -> (r: Result<usvg::Tree, usvg::Error>)
    ensures
        r is Ok <==> svg_parses(data@),
        !(data@.len() >= 2 && data@[0] == 0x1f && data@[1] == 0x8b) && !vstd::utf8::valid_utf8(data@)
            ==> r is Err,
{
    let opt = usvg::Options {
        image_href_resolver: usvg::ImageHrefResolver {
            resolve_data: usvg::ImageHrefResolver::default_data_resolver(),
            resolve_string: Box::new(|href, opts| refuse_linked_image(href, opts)),
        },
        ..usvg::Options::default()
    };
    usvg::Tree::from_data(data, &opt)
}

/// Parse an SVG watermark from raw bytes. Links to images other than data
/// URLs are refused, so a crafted watermark cannot pull an arbitrary local
/// file into the rendered output; embedded data URLs are honoured.
pub fn from_svg_bytes(data: &[u8]) -> (r: Result<usvg::Tree, WatermarkError>)
    ensures
        r is Ok <==> svg_parses(data@),
{
    match parse_svg(data) {
        Ok(tree) => Ok(tree),
        Err(e) => Err(WatermarkError::Svg(e)),
    }
}

} // verus!
