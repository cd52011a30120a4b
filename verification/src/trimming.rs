//! Trimming: the minimal bounding box of the opaque pixels, and the crop
//! of an image to that box.

use vstd::prelude::*;
use crate::raster::Image;
use crate::raster::Pixel;

verus! {

/// (x0, y0)..(x1, y1) is the minimal axis-aligned box (inclusive corners)
/// holding every opaque pixel of `img`: it contains them all, and each of
/// its four border rows and columns holds at least one.
pub open spec fn is_bbox(img: Image, x0: int, y0: int, x1: int, y1: int) -> bool {
    &&& 0 <= x0 <= x1 < img.width
    &&& 0 <= y0 <= y1 < img.height
    &&& forall|x: int, y: int|
        img.opaque_at(x, y) ==> x0 <= x <= x1 && y0 <= y <= y1
    &&& img.col_has_opaque(x0)
    &&& img.col_has_opaque(x1)
    &&& img.row_has_opaque(y0)
    &&& img.row_has_opaque(y1)
}

/// `out` is the w x h subregion of `src` whose top-left corner sits at
/// (x0, y0) in `src`, copied pixel for pixel.
pub open spec fn is_crop(src: Image, x0: int, y0: int, w: int, h: int, out: Image) -> bool {
    &&& out.wf()
    &&& out.width == w
    &&& out.height == h
    &&& forall|x: int, y: int|
        0 <= x < w && 0 <= y < h ==> out.pix(x, y) == src.pix(x0 + x, y0 + y)
}

/// `out` is what trimming `src` yields: the crop to the minimal bounding
/// box of the opaque pixels, or `src` itself when no pixel is opaque.
pub open spec fn is_trimmed(src: Image, out: Image) -> bool {
    if src.has_opaque() {
        exists|x0: int, y0: int, x1: int, y1: int|
            is_bbox(src, x0, y0, x1, y1)
                && is_crop(src, x0, y0, x1 - x0 + 1, y1 - y0 + 1, out)
    } else {
        out == src
    }
}

/// An image has at most one minimal bounding box: any two boxes that both
/// contain every opaque pixel and touch one on each border coincide.
pub proof fn lemma_bbox_unique(
    img: Image,
    ax0: int,
    ay0: int,
    ax1: int,
    ay1: int,
    bx0: int,
    by0: int,
    bx1: int,
    by1: int,
)
    requires
        is_bbox(img, ax0, ay0, ax1, ay1),
        is_bbox(img, bx0, by0, bx1, by1),
    ensures
        ax0 == bx0,
        ay0 == by0,
        ax1 == bx1,
        ay1 == by1,
{
    let ya0 = choose|yy: int| img.opaque_at(ax0, yy);
    let ya1 = choose|yy: int| img.opaque_at(ax1, yy);
    let xa0 = choose|xx: int| img.opaque_at(xx, ay0);
    let xa1 = choose|xx: int| img.opaque_at(xx, ay1);
    let yb0 = choose|yy: int| img.opaque_at(bx0, yy);
    let yb1 = choose|yy: int| img.opaque_at(bx1, yy);
    let xb0 = choose|xx: int| img.opaque_at(xx, by0);
    let xb1 = choose|xx: int| img.opaque_at(xx, by1);
    assert(img.opaque_at(ax0, ya0) && img.opaque_at(ax1, ya1));
    assert(img.opaque_at(xa0, ay0) && img.opaque_at(xa1, ay1));
    assert(img.opaque_at(bx0, yb0) && img.opaque_at(bx1, yb1));
    assert(img.opaque_at(xb0, by0) && img.opaque_at(xb1, by1));
}

/// Trim tightness: once an image holding an opaque pixel is trimmed, each
/// of the four border rows and columns of the result holds an opaque
/// pixel, so no further cropping is possible.
pub proof fn lemma_trim_tight(src: Image, out: Image)
    requires
        src.wf(),
        src.has_opaque(),
        is_trimmed(src, out),
    ensures
        out.width >= 1,
        out.height >= 1,
        out.col_has_opaque(0),
        out.col_has_opaque(out.width - 1),
        out.row_has_opaque(0),
        out.row_has_opaque(out.height - 1),
{
    let (x0, y0, x1, y1) = choose|x0: int, y0: int, x1: int, y1: int|
        is_bbox(src, x0, y0, x1, y1) && is_crop(src, x0, y0, x1 - x0 + 1, y1 - y0 + 1, out);
    assert(is_bbox(src, x0, y0, x1, y1));
    let yl = choose|yy: int| src.opaque_at(x0, yy);
    assert(src.opaque_at(x0, yl));
    assert(out.pix(0, yl - y0) == src.pix(x0, yl));
    assert(out.opaque_at(0, yl - y0));
    let yr = choose|yy: int| src.opaque_at(x1, yy);
    assert(src.opaque_at(x1, yr));
    assert(out.pix(x1 - x0, yr - y0) == src.pix(x1, yr));
    assert(out.opaque_at(x1 - x0, yr - y0));
    let xt = choose|xx: int| src.opaque_at(xx, y0);
    assert(src.opaque_at(xt, y0));
    assert(out.pix(xt - x0, 0) == src.pix(xt, y0));
    assert(out.opaque_at(xt - x0, 0));
    let xb = choose|xx: int| src.opaque_at(xx, y1);
    assert(src.opaque_at(xb, y1));
    assert(out.pix(xb - x0, y1 - y0) == src.pix(xb, y1));
    assert(out.opaque_at(xb - x0, y1 - y0));
}

/// A trimmed image is its own minimal bounding box: the whole frame.
pub proof fn lemma_trimmed_full_bbox(src: Image, out: Image)
    requires
        src.wf(),
        src.has_opaque(),
        is_trimmed(src, out),
    ensures
        is_bbox(out, 0, 0, out.width - 1, out.height - 1),
{
    lemma_trim_tight(src, out);
}

/// Trim idempotence: trimming a trimmed image yields a pixel-identical
/// image, for all images.
pub proof fn lemma_trim_idempotent(img: Image, once: Image, twice: Image)
    requires
        img.wf(),
        is_trimmed(img, once),
        is_trimmed(once, twice),
    ensures
        twice.width == once.width,
        twice.height == once.height,
        forall|x: int, y: int|
            once.in_bounds(x, y) ==> twice.pix(x, y) == once.pix(x, y),
{
    if !img.has_opaque() {
        assert(once == img);
        assert(!once.has_opaque());
        assert(twice == once);
    } else {
        lemma_trim_tight(img, once);
        lemma_trimmed_full_bbox(img, once);
        let yl = choose|yy: int| once.opaque_at(0, yy);
        assert(once.opaque_at(0, yl));
        assert(once.has_opaque());
        let (x0, y0, x1, y1) = choose|x0: int, y0: int, x1: int, y1: int|
            is_bbox(once, x0, y0, x1, y1)
                && is_crop(once, x0, y0, x1 - x0 + 1, y1 - y0 + 1, twice);
        assert(is_bbox(once, x0, y0, x1, y1));
        lemma_bbox_unique(
            once,
            x0,
            y0,
            x1,
            y1,
            0,
            0,
            once.width - 1,
            once.height - 1,
        );
        assert forall|x: int, y: int| once.in_bounds(x, y)
            implies twice.pix(x, y) == once.pix(x, y) by {
            assert(twice.pix(x, y) == once.pix(x0 + x, y0 + y));
        }
    }
}

/// Removing fully transparent borders from a value, so that what is drawn
/// from it is as compact as possible.
pub trait Trim: Sized {
    /// The inputs on which trimming is defined.
    spec fn trim_req(self) -> bool;

    /// What the trimmed value is, in terms of the input.
    spec fn trim_ens(self, r: Self) -> bool;

    /// Remove transparent margins from an image, useful to make sure the
    /// image fits.
    fn trim(self) -> (r: Self)
        requires
            self.trim_req(),
        ensures
            self.trim_ens(r),
    ;
}

impl Image {
    /// Copies the w x h subregion of `self` with top-left corner (x0, y0)
    /// into a new, independently owned image.
    pub fn crop(&self, x0: usize, y0: usize, w: usize, h: usize) -> (out: Image)
        requires
            self.wf(),
            x0 + w <= self.width,
            y0 + h <= self.height,
        ensures
            is_crop(*self, x0 as int, y0 as int, w as int, h as int, out),
    {
        proof {
            assert(w * h <= self.width * self.height) by (nonlinear_arith)
                requires
                    w <= self.width,
                    h <= self.height,
            ;
        }
        // The grid size fits in usize because the source storage holds
        // width * height pixels.
        let total = self.pixels.len();
        proof {
            assert(w * h <= total);
        }
        let n = w * h;
        let mut pixels: Vec<Pixel> = Vec::new();
        let mut i: usize = 0;
        while i < n
            invariant
                self.wf(),
                x0 + w <= self.width,
                y0 + h <= self.height,
                n == w * h,
                i <= n,
                pixels@.len() == i,
                forall|j: int|
                    0 <= j < i ==> #[trigger] pixels@[j] == self.pix(
                        x0 + (j % (w as int)),
                        y0 + (j / (w as int)),
                    ),
            decreases n - i,
        {
            proof {
                assert(w > 0 && h > 0) by (nonlinear_arith)
                    requires
                        i < n,
                        n == w * h,
                        0 <= i,
                ;
            }
            let x = i % w;
            let y = i / w;
            proof {
                assert((i as int) / (w as int) < h) by (nonlinear_arith)
                    requires
                        0 <= i < w * h,
                        w > 0,
                ;
            }
            let p = self.get_pixel(x0 + x, y0 + y);
            pixels.push(p);
            i = i + 1;
        }
        let out = Image { width: w, height: h, pixels };
        proof {
            assert forall|x: int, y: int| 0 <= x < w && 0 <= y < h
                implies out.pix(x, y) == self.pix(x0 + x, y0 + y) by {
                let j = y * (w as int) + x;
                assert(0 <= j < w * h) by (nonlinear_arith)
                    requires
                        0 <= x < w,
                        0 <= y < h,
                        j == y * (w as int) + x,
                ;
                assert(j % (w as int) == x && j / (w as int) == y) by (nonlinear_arith)
                    requires
                        0 <= x < w,
                        0 <= y,
                        j == y * (w as int) + x,
                ;
                assert(pixels@[j] == self.pix(x0 + (j % (w as int)), y0 + (j / (w as int))));
            }
        }
        out
    }
}

impl Trim for Image {
    open spec fn trim_req(self) -> bool {
        self.wf()
    }

    open spec fn trim_ens(self, r: Self) -> bool {
        r.wf() && is_trimmed(self, r)
    }

    fn trim(self) -> (r: Self) {
        let w = self.width;
        let h = self.height;
        let mut min_x: usize = 0;
        let mut min_y: usize = 0;
        let mut max_x: usize = 0;
        let mut max_y: usize = 0;
        let mut found = false;

        let mut y: usize = 0;
        while y < h
            invariant
                self.wf(),
                w == self.width,
                h == self.height,
                y <= h,
                found <==> exists|xx: int, yy: int| yy < y && self.opaque_at(xx, yy),
                found ==> min_x <= max_x < w && min_y <= max_y < y,
                found ==> forall|xx: int, yy: int|
                    yy < y && self.opaque_at(xx, yy)
                        ==> min_x <= xx <= max_x && min_y <= yy <= max_y,
                found ==> self.col_has_opaque(min_x as int),
                found ==> self.col_has_opaque(max_x as int),
                found ==> self.row_has_opaque(min_y as int),
                found ==> self.row_has_opaque(max_y as int),
            decreases h - y,
        {
            let mut x: usize = 0;
            while x < w
                invariant
                    self.wf(),
                    w == self.width,
                    h == self.height,
                    y < h,
                    x <= w,
                    found <==> exists|xx: int, yy: int|
                        (yy < y || (yy == y && xx < x)) && self.opaque_at(xx, yy),
                    found ==> min_x <= max_x < w && min_y <= max_y <= y,
                    found ==> forall|xx: int, yy: int|
                        (yy < y || (yy == y && xx < x)) && self.opaque_at(xx, yy)
                            ==> min_x <= xx <= max_x && min_y <= yy <= max_y,
                    found ==> self.col_has_opaque(min_x as int),
                    found ==> self.col_has_opaque(max_x as int),
                    found ==> self.row_has_opaque(min_y as int),
                    found ==> self.row_has_opaque(max_y as int),
                decreases w - x,
            {
                let p = self.get_pixel(x, y);
                if p.a != 0 {
                    if !found {
                        min_x = x;
                        max_x = x;
                        min_y = y;
                        max_y = y;
                        found = true;
                    } else {
                        if x < min_x {
                            min_x = x;
                        }
                        if x > max_x {
                            max_x = x;
                        }
                        if y < min_y {
                            min_y = y;
                        }
                        if y > max_y {
                            max_y = y;
                        }
                    }
                    proof {
                        assert(self.opaque_at(x as int, y as int));
                    }
                }
                x = x + 1;
            }
            y = y + 1;
        }

        if !found {
            proof {
                assert(!self.has_opaque());
            }
            return self;
        }

        proof {
            assert(is_bbox(self, min_x as int, min_y as int, max_x as int, max_y as int));
        }
        let out = self.crop(min_x, min_y, max_x - min_x + 1, max_y - min_y + 1);
        proof {
            assert(is_trimmed(self, out));
        }
        out
    }
}

} // verus!
