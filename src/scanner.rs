//! Sampling a captured screen region for the first pixel that differs from
//! the background.

use vstd::prelude::*;
use vstd::arithmetic::div_mod::{lemma_fundamental_div_mod, lemma_mod_add_multiples_vanish, lemma_small_mod};
use crate::geometry::Point;

verus! {

/// Margin, in pixels, that a scan leaves out on every side of the region.
pub const SCAN_MARGIN: usize = 10;

/// Sampling step used by the aim trainer.
pub const DEFAULT_STRIDE: usize = 60;

/// Background colour of the aim trainer's target area (0x00BBGGRR).
pub const AIM_BACKGROUND: u32 = 0xD1872B;

/// A captured screen region: `pixels` holds `height` rows of `width` colours,
/// and the top-left pixel sits at (`left`, `top`) on the screen.
pub struct Frame {
    left: i32,
    top: i32,
    width: usize,
    height: usize,
    pixels: Vec<u32>,
}

impl Frame {
    pub closed spec fn left_spec(&self) -> int {
        self.left as int
    }

    pub closed spec fn top_spec(&self) -> int {
        self.top as int
    }

    pub closed spec fn width_spec(&self) -> int {
        self.width as int
    }

    pub closed spec fn height_spec(&self) -> int {
        self.height as int
    }

    /// Colour at (x, y), counted from the frame's top-left pixel.
    pub closed spec fn pixel(&self, x: int, y: int) -> u32 {
        self.pixels@[y * self.width + x]
    }

    /// The pixel buffer matches the size, and every pixel has a screen position.
    pub closed spec fn wf(&self) -> bool {
        &&& self.pixels@.len() == self.width * self.height
        &&& self.left + self.width <= i32::MAX
        &&& self.top + self.height <= i32::MAX
    }

    /// Wraps a captured buffer; `None` when the buffer does not hold exactly
    /// `width * height` pixels or the region runs off the screen's coordinates.
    pub fn new(left: i32, top: i32, width: usize, height: usize, pixels: Vec<u32>) -> (r: Option<Frame>)
        ensures
            r.is_some() <==> (pixels@.len() == width * height && left + width <= i32::MAX && top + height
                <= i32::MAX),
            r matches Some(f) ==> {
                &&& f.wf()
                &&& f.left_spec() == left
                &&& f.top_spec() == top
                &&& f.width_spec() == width
                &&& f.height_spec() == height
                &&& forall|x: int, y: int|
                    0 <= x < width && 0 <= y < height ==> #[trigger] f.pixel(x, y) == pixels@[y * width + x]
            },
    {
        let len = pixels.len();
        let n = match width.checked_mul(height) {
            Some(n) => n,
            None => {
                assert(len <= usize::MAX);
                return None;
            },
        };
        if len != n {
            return None;
        }
        if width as u64 > (i32::MAX as i64 - left as i64) as u64 {
            return None;
        }
        if height as u64 > (i32::MAX as i64 - top as i64) as u64 {
            return None;
        }
        Some(Frame { left, top, width, height, pixels })
    }
}

/// (x, y) is on the sampling grid of `stride` inside the margins of `f`.
pub open spec fn sampled(f: &Frame, stride: int, x: int, y: int) -> bool {
    &&& SCAN_MARGIN <= x < f.width_spec() - SCAN_MARGIN
    &&& SCAN_MARGIN <= y < f.height_spec() - SCAN_MARGIN
    &&& (x - SCAN_MARGIN) % stride == 0
    &&& (y - SCAN_MARGIN) % stride == 0
}

/// A sampled pixel whose colour is not the background.
pub open spec fn hit(f: &Frame, bg: u32, stride: int, x: int, y: int) -> bool {
    sampled(f, stride, x, y) && f.pixel(x, y) != bg
}

/// (x1, y1) comes before (x2, y2) in row-major scan order.
pub open spec fn before(x1: int, y1: int, x2: int, y2: int) -> bool {
    y1 < y2 || (y1 == y2 && x1 < x2)
}

/// (x, y) is the hit that a row-major scan meets first.
pub open spec fn first_hit(f: &Frame, bg: u32, stride: int, x: int, y: int) -> bool {
    &&& hit(f, bg, stride, x, y)
    &&& forall|x2: int, y2: int| #[trigger] hit(f, bg, stride, x2, y2) ==> !before(x2, y2, x, y)
}

pub open spec fn any_hit(f: &Frame, bg: u32, stride: int) -> bool {
    exists|x: int, y: int| #[trigger] hit(f, bg, stride, x, y)
}

/// What a scan of `f` finds: the screen position of its first hit, if any.
pub open spec fn scan_spec(f: &Frame, bg: u32, stride: int) -> Option<Point> {
    if any_hit(f, bg, stride) {
        let (x, y) = choose|x: int, y: int| #[trigger] first_hit(f, bg, stride, x, y);
        Some(Point { x: (f.left_spec() + x) as i32, y: (f.top_spec() + y) as i32 })
    } else {
        None
    }
}

proof fn lemma_next_sample(a: int, b: int, s: int)
    requires
        s > 0,
        a >= 0,
        b >= 0,
        a % s == 0,
        b % s == 0,
        a < b,
    ensures
        a + s <= b,
{
    lemma_fundamental_div_mod(a, s);
    lemma_fundamental_div_mod(b, s);
    let qa = a / s;
    let qb = b / s;
    assert(qa < qb) by (nonlinear_arith)
        requires
            a == s * qa,
            b == s * qb,
            a < b,
            s > 0,
    ;
    assert(s * qa + s <= s * qb) by (nonlinear_arith)
        requires
            qa < qb,
            s > 0,
    ;
}

proof fn lemma_step_sample(a: int, s: int)
    requires
        s > 0,
        a % s == 0,
    ensures
        (a + s) % s == 0,
{
    lemma_mod_add_multiples_vanish(a, s);
}

proof fn lemma_first_hit_unique(f: &Frame, bg: u32, stride: int, x1: int, y1: int, x2: int, y2: int)
    requires
        first_hit(f, bg, stride, x1, y1),
        first_hit(f, bg, stride, x2, y2),
    ensures
        x1 == x2 && y1 == y2,
{
    assert(hit(f, bg, stride, x1, y1));
    assert(hit(f, bg, stride, x2, y2));
}

proof fn lemma_index_in_bounds(x: int, y: int, w: int, h: int)
    requires
        0 <= x < w,
        0 <= y < h,
    ensures
        0 <= y * w + x < w * h,
{
    assert(0 <= y * w + x < w * h) by (nonlinear_arith)
        requires
            0 <= x < w,
            0 <= y < h,
    ;
}

impl Frame {
    /// Scans rows top to bottom and, in each row, pixels left to right, both at
    /// `stride` and inside the margin, and returns the screen position of the
    /// first pixel whose colour is not `background`.
    pub fn find_target_in_screenshot(&self, background: u32, stride: usize) -> (r: Option<Point>)
        requires
            self.wf(),
            stride > 0,
        ensures
            r == scan_spec(self, background, stride as int),
            (forall|x: int, y: int|
                0 <= x < self.width_spec() && 0 <= y < self.height_spec() ==> #[trigger] self.pixel(x, y)
                    == background) ==> r.is_none(),
    {
        let ghost s = stride as int;
        if self.height < 2 * SCAN_MARGIN || self.width < 2 * SCAN_MARGIN {
            assert(!any_hit(self, background, s));
            return None;
        }
        let ylim = self.height - SCAN_MARGIN;
        let xlim = self.width - SCAN_MARGIN;
        let mut y: usize = SCAN_MARGIN;
        proof {
            lemma_small_mod(0, stride as nat);
        }
        while y < ylim
            invariant
                self.wf(),
                s == stride as int,
                stride > 0,
                ylim == self.height - SCAN_MARGIN,
                xlim == self.width - SCAN_MARGIN,
                SCAN_MARGIN <= y,
                y < ylim ==> (y - SCAN_MARGIN) % s == 0,
                forall|x2: int, y2: int| #[trigger] hit(self, background, s, x2, y2) ==> y2 >= y,
            decreases ylim - y,
        {
            let mut x: usize = SCAN_MARGIN;
            proof {
                lemma_small_mod(0, stride as nat);
            }
            while x < xlim
                invariant
                    self.wf(),
                    s == stride as int,
                    stride > 0,
                    ylim == self.height - SCAN_MARGIN,
                    xlim == self.width - SCAN_MARGIN,
                    SCAN_MARGIN <= y < ylim,
                    (y - SCAN_MARGIN) % s == 0,
                    SCAN_MARGIN <= x,
                    x < xlim ==> (x - SCAN_MARGIN) % s == 0,
                    forall|x2: int, y2: int| #[trigger] hit(self, background, s, x2, y2) ==> y2 > y || (y2 == y && x2 >= x),
                decreases xlim - x,
            {
                proof {
                    lemma_index_in_bounds(x as int, y as int, self.width as int, self.height as int);
                    assert(y * self.width <= y * self.width + x < self.pixels.len());
                }
                let p = self.pixels[y * self.width + x];
                if p != background {
                    let ghost xi = x as int;
                    let ghost yi = y as int;
                    assert(hit(self, background, s, xi, yi));
                    assert(first_hit(self, background, s, xi, yi));
                    let px: i64 = self.left as i64 + x as i64;
                    let py: i64 = self.top as i64 + y as i64;
                    proof {
                        let (cx, cy) = choose|cx: int, cy: int| #[trigger] first_hit(self, background, s, cx, cy);
                        lemma_first_hit_unique(self, background, s, cx, cy, xi, yi);
                    }
                    return Some(Point { x: px as i32, y: py as i32 });
                }
                proof {
                    assert forall|x2: int, y2: int| #[trigger] hit(self, background, s, x2, y2) && y2 == y && x2 > x implies x2 >= x + s by {
                        lemma_next_sample(x - SCAN_MARGIN, x2 - SCAN_MARGIN, s);
                    }
                    lemma_step_sample(x - SCAN_MARGIN, s);
                }
                if stride >= xlim - x {
                    x = xlim;
                } else {
                    x = x + stride;
                }
            }
            proof {
                assert forall|x2: int, y2: int| #[trigger] hit(self, background, s, x2, y2) && y2 > y implies y2 >= y + s by {
                    lemma_next_sample(y - SCAN_MARGIN, y2 - SCAN_MARGIN, s);
                }
                lemma_step_sample(y - SCAN_MARGIN, s);
            }
            if stride >= ylim - y {
                y = ylim;
            } else {
                y = y + stride;
            }
        }
        None
    }
}

/// With a stride of one, a region that differs from the background in exactly
/// one pixel inside the margins is found exactly at that pixel.
pub proof fn lemma_single_difference_found(f: &Frame, bg: u32, px: int, py: int)
    requires
        f.wf(),
        SCAN_MARGIN <= px < f.width_spec() - SCAN_MARGIN,
        SCAN_MARGIN <= py < f.height_spec() - SCAN_MARGIN,
        f.pixel(px, py) != bg,
        forall|x: int, y: int|
            0 <= x < f.width_spec() && 0 <= y < f.height_spec() && !(x == px && y == py) ==> #[trigger] f.pixel(x, y)
                == bg,
    ensures
        scan_spec(f, bg, 1) == Some(Point { x: (f.left_spec() + px) as i32, y: (f.top_spec() + py) as i32 }),
{
    assert((px - SCAN_MARGIN) % 1 == 0);
    assert((py - SCAN_MARGIN) % 1 == 0);
    assert(hit(f, bg, 1, px, py));
    assert(first_hit(f, bg, 1, px, py));
    let (cx, cy) = choose|cx: int, cy: int| #[trigger] first_hit(f, bg, 1, cx, cy);
    lemma_first_hit_unique(f, bg, 1, cx, cy, px, py);
}

/// Every point sampled at a stride is also sampled at any divisor of it, so a
/// coarser scan never finds a target that the finer scan misses.
pub proof fn lemma_coarser_stride_no_extra_hits(f: &Frame, bg: u32, fine: int, coarse: int)
    requires
        fine > 0,
        coarse > 0,
        coarse % fine == 0,
    ensures
        forall|x: int, y: int| #[trigger] hit(f, bg, coarse, x, y) ==> hit(f, bg, fine, x, y),
        scan_spec(f, bg, coarse).is_some() ==> scan_spec(f, bg, fine).is_some(),
{
    assert forall|x: int, y: int| #[trigger] hit(f, bg, coarse, x, y) implies hit(f, bg, fine, x, y) by {
        lemma_divisor_keeps_multiple(x - SCAN_MARGIN, fine, coarse);
        lemma_divisor_keeps_multiple(y - SCAN_MARGIN, fine, coarse);
    }
    if any_hit(f, bg, coarse) {
        let (x, y) = choose|x: int, y: int| #[trigger] hit(f, bg, coarse, x, y);
        assert(hit(f, bg, fine, x, y));
    }
}

proof fn lemma_multiple_in_window(a: int, s: int) -> (k: int)
    requires
        a >= 0,
        s > 0,
    ensures
        a <= k < a + s,
        k % s == 0,
{
    lemma_fundamental_div_mod(a, s);
    let q = a / s;
    let r = a % s;
    if r == 0 {
        a
    } else {
        let k = a + s - r;
        assert(k == (q + 1) * s) by (nonlinear_arith)
            requires
                a == s * q + r,
                k == a + s - r,
        ;
        vstd::arithmetic::div_mod::lemma_mod_multiples_basic(q + 1, s);
        k
    }
}

/// A target at least `stride` pixels wide and high that lies inside the
/// scanned area is always found: a scan at that stride samples one of its
/// pixels.
pub proof fn lemma_target_of_stride_size_found(f: &Frame, bg: u32, stride: int, bx: int, by: int)
    requires
        stride > 0,
        SCAN_MARGIN <= bx,
        bx + stride <= f.width_spec() - SCAN_MARGIN,
        SCAN_MARGIN <= by,
        by + stride <= f.height_spec() - SCAN_MARGIN,
        forall|x: int, y: int| bx <= x < bx + stride && by <= y < by + stride ==> #[trigger] f.pixel(x, y) != bg,
    ensures
        scan_spec(f, bg, stride).is_some(),
{
    let kx = lemma_multiple_in_window(bx - SCAN_MARGIN, stride);
    let ky = lemma_multiple_in_window(by - SCAN_MARGIN, stride);
    let x = kx + SCAN_MARGIN;
    let y = ky + SCAN_MARGIN;
    assert(f.pixel(x, y) != bg);
    assert(hit(f, bg, stride, x, y));
}

proof fn lemma_divisor_keeps_multiple(a: int, fine: int, coarse: int)
    requires
        fine > 0,
        coarse > 0,
        coarse % fine == 0,
        a % coarse == 0,
    ensures
        a % fine == 0,
{
    lemma_fundamental_div_mod(a, coarse);
    lemma_fundamental_div_mod(coarse, fine);
    let k = a / coarse;
    let m = coarse / fine;
    assert(a == fine * (m * k)) by (nonlinear_arith)
        requires
            a == coarse * k,
            coarse == fine * m,
    ;
    vstd::arithmetic::div_mod::lemma_mod_multiples_basic(m * k, fine);
}

} // verus!
