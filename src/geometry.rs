//! Mapping of document geometry to absolute screen pixels.

use vstd::prelude::*;

verus! {

/// A point in absolute screen space (or, for a `Quad`, in document space).
#[derive(Clone, Copy, Debug, PartialEq, Eq, Structural)]
pub struct Point {
    pub x: i32,
    pub y: i32,
}

/// The four corners of an element's content box, in document pixels.
#[derive(Clone, Copy, Debug, PartialEq, Eq, Structural)]
pub struct Quad {
    pub top_left: Point,
    pub top_right: Point,
    pub bottom_left: Point,
    pub bottom_right: Point,
}

/// Top-left corner of the browser window on the screen.
#[derive(Clone, Copy, Debug, PartialEq, Eq, Structural)]
pub struct WindowOrigin {
    pub x: i32,
    pub y: i32,
}

/// Fixed correction for the browser's decoration (address bar, toolbar).
#[derive(Clone, Copy, Debug, PartialEq, Eq, Structural)]
pub struct ChromeOffset {
    pub dx: i32,
    pub dy: i32,
}

/// A rectangle on the screen given by its left, top, right and bottom edges.
#[derive(Clone, Copy, Debug, PartialEq, Eq, Structural)]
pub struct Region {
    pub left: i32,
    pub top: i32,
    pub right: i32,
    pub bottom: i32,
}

/// Horizontal decoration offset of the browser used by the benchmarks.
pub const BROWSER_OFFSET_X: i32 = 5;

/// Vertical decoration offset of the browser used by the benchmarks.
pub const BROWSER_OFFSET_Y: i32 = 140;

/// Half of `a + b`, rounded toward zero as integer division in Rust does.
pub open spec fn half_sum(a: int, b: int) -> int {
    if a + b >= 0 {
        (a + b) / 2
    } else {
        -((-(a + b)) / 2)
    }
}

pub open spec fn min2(a: int, b: int) -> int {
    if a <= b { a } else { b }
}

pub open spec fn max2(a: int, b: int) -> int {
    if a >= b { a } else { b }
}

/// Screen x of the centre of `q`.
pub open spec fn center_x(q: Quad, w: WindowOrigin, o: ChromeOffset) -> int {
    half_sum(q.top_left.x as int, q.top_right.x as int) + w.x + o.dx
}

/// Screen y of the centre of `q`.
pub open spec fn center_y(q: Quad, w: WindowOrigin, o: ChromeOffset) -> int {
    half_sum(q.top_left.y as int, q.bottom_left.y as int) + w.y + o.dy
}

pub open spec fn fits_i32(v: int) -> bool {
    i32::MIN <= v <= i32::MAX
}

/// The centre of `q` can be written as a screen point.
pub open spec fn center_fits(q: Quad, w: WindowOrigin, o: ChromeOffset) -> bool {
    fits_i32(center_x(q, w, o)) && fits_i32(center_y(q, w, o))
}

/// Smallest x among the four corners.
pub open spec fn box_left(q: Quad) -> int {
    min2(
        min2(q.top_left.x as int, q.top_right.x as int),
        min2(q.bottom_left.x as int, q.bottom_right.x as int),
    )
}

/// Largest x among the four corners.
pub open spec fn box_right(q: Quad) -> int {
    max2(
        max2(q.top_left.x as int, q.top_right.x as int),
        max2(q.bottom_left.x as int, q.bottom_right.x as int),
    )
}

/// Smallest y among the four corners.
pub open spec fn box_top(q: Quad) -> int {
    min2(
        min2(q.top_left.y as int, q.top_right.y as int),
        min2(q.bottom_left.y as int, q.bottom_right.y as int),
    )
}

/// Largest y among the four corners.
pub open spec fn box_bottom(q: Quad) -> int {
    max2(
        max2(q.top_left.y as int, q.top_right.y as int),
        max2(q.bottom_left.y as int, q.bottom_right.y as int),
    )
}

impl ChromeOffset {
    /// The decoration offset of the browser window the benchmarks run in.
    pub fn browser_default() -> (r: ChromeOffset)
        ensures
            r.dx == BROWSER_OFFSET_X,
            r.dy == BROWSER_OFFSET_Y,
    {
        ChromeOffset { dx: BROWSER_OFFSET_X, dy: BROWSER_OFFSET_Y }
    }
}

/// Rust's truncating `(a + b) / 2`, without overflow.
fn half_sum_exec(a: i32, b: i32) -> (r: i64)
    ensures
        r == half_sum(a as int, b as int),
{
    let s: i64 = a as i64 + b as i64;
    if s >= 0 {
        s / 2
    } else {
        let n: i64 = -s;
        -(n / 2)
    }
}

fn fits_i32_exec(v: i64) -> (r: bool)
    ensures
        r == fits_i32(v as int),
{
    i32::MIN as i64 <= v && v <= i32::MAX as i64
}

/// Whether the centre of `q` can be written as a screen point.
pub fn center_in_range(q: &Quad, window: &WindowOrigin, offset: &ChromeOffset) -> (r: bool)
    ensures
        r == center_fits(*q, *window, *offset),
{
    let cx: i64 = half_sum_exec(q.top_left.x, q.top_right.x);
    let cy: i64 = half_sum_exec(q.top_left.y, q.bottom_left.y);
    fits_i32_exec(cx + window.x as i64 + offset.dx as i64) && fits_i32_exec(cy + window.y as i64 + offset.dy as i64)
}

/// Whether every edge of the inset region of `q` can be written as a screen
/// coordinate.
pub fn region_in_range(q: &Quad, window: &WindowOrigin, offset: &ChromeOffset, inset_x: i32, inset_y: i32) -> (r:
    bool)
    ensures
        r == region_fits(*q, *window, *offset, inset_x as int, inset_y as int),
{
    let wx: i64 = window.x as i64 + offset.dx as i64;
    let wy: i64 = window.y as i64 + offset.dy as i64;
    fits_i32_exec(q.top_left.x as i64 + wx + inset_x as i64) && fits_i32_exec(q.top_left.y as i64 + wy + inset_y as i64)
        && fits_i32_exec(q.bottom_right.x as i64 + wx - inset_x as i64) && fits_i32_exec(
        q.bottom_right.y as i64 + wy - inset_y as i64,
    )
}

/// Screen coordinates of the centre of an element's box.
pub fn determ_center_of_element(q: &Quad, window: &WindowOrigin, offset: &ChromeOffset) -> (r:
    Point)
    requires
        center_fits(*q, *window, *offset),
    ensures
        r.x == center_x(*q, *window, *offset),
        r.y == center_y(*q, *window, *offset),
{
    let cx: i64 = half_sum_exec(q.top_left.x, q.top_right.x);
    let cy: i64 = half_sum_exec(q.top_left.y, q.bottom_left.y);
    let x: i64 = cx + window.x as i64 + offset.dx as i64;
    let y: i64 = cy + window.y as i64 + offset.dy as i64;
    Point { x: x as i32, y: y as i32 }
}

/// Inward margin that keeps the aim scan away from the target area's border rows.
pub const AIM_AREA_INSET_Y: i32 = 50;

/// Position and size of the browser window on the screen.
#[derive(Clone, Copy, Debug, PartialEq, Eq, Structural)]
pub struct WindowBounds {
    pub left: u32,
    pub top: u32,
    pub width: u32,
    pub height: u32,
}

/// The screen region covered by `q`, shrunk by `inset_x` on the left and right
/// and by `inset_y` on the top and bottom.
pub open spec fn region_spec(q: Quad, w: WindowOrigin, o: ChromeOffset, inset_x: int, inset_y: int) -> (
    int,
    int,
    int,
    int,
) {
    (
        q.top_left.x + w.x + o.dx + inset_x,
        q.top_left.y + w.y + o.dy + inset_y,
        q.bottom_right.x + w.x + o.dx - inset_x,
        q.bottom_right.y + w.y + o.dy - inset_y,
    )
}

pub open spec fn region_fits(q: Quad, w: WindowOrigin, o: ChromeOffset, inset_x: int, inset_y: int) -> bool {
    let r = region_spec(q, w, o, inset_x, inset_y);
    fits_i32(r.0) && fits_i32(r.1) && fits_i32(r.2) && fits_i32(r.3)
}

/// Screen corners of an element's box, shrunk by the given insets.
pub fn inset_region(q: &Quad, window: &WindowOrigin, offset: &ChromeOffset, inset_x: i32, inset_y: i32) -> (r:
    Region)
    requires
        region_fits(*q, *window, *offset, inset_x as int, inset_y as int),
    ensures
        (r.left as int, r.top as int, r.right as int, r.bottom as int) == region_spec(
            *q,
            *window,
            *offset,
            inset_x as int,
            inset_y as int,
        ),
{
    let wx: i64 = window.x as i64 + offset.dx as i64;
    let wy: i64 = window.y as i64 + offset.dy as i64;
    let left: i64 = q.top_left.x as i64 + wx + inset_x as i64;
    let top: i64 = q.top_left.y as i64 + wy + inset_y as i64;
    let right: i64 = q.bottom_right.x as i64 + wx - inset_x as i64;
    let bottom: i64 = q.bottom_right.y as i64 + wy - inset_y as i64;
    Region { left: left as i32, top: top as i32, right: right as i32, bottom: bottom as i32 }
}

/// Centre of a screen region.
pub fn region_center(r: &Region) -> (p: Point)
    ensures
        p.x == half_sum(r.left as int, r.right as int),
        p.y == half_sum(r.top as int, r.bottom as int),
{
    let x: i64 = half_sum_exec(r.left, r.right);
    let y: i64 = half_sum_exec(r.top, r.bottom);
    assert(i32::MIN <= x <= i32::MAX);
    assert(i32::MIN <= y <= i32::MAX);
    Point { x: x as i32, y: y as i32 }
}

/// The middle of the browser window, where the reaction area sits.
pub fn get_reaction_area_coordinates(b: &WindowBounds) -> (p: Point)
    requires
        b.left + b.width / 2 <= i32::MAX,
        b.top + b.height / 2 <= i32::MAX,
    ensures
        p.x == b.left + b.width / 2,
        p.y == b.top + b.height / 2,
{
    let x: u32 = b.left + b.width / 2;
    let y: u32 = b.top + b.height / 2;
    Point { x: x as i32, y: y as i32 }
}

/// The centre of an element's box, shifted onto the screen, lies inside the
/// element's bounding box shifted the same way.
pub proof fn lemma_center_within_box(q: Quad, w: WindowOrigin, o: ChromeOffset)
    ensures
        box_left(q) + w.x + o.dx <= center_x(q, w, o) <= box_right(q) + w.x + o.dx,
        box_top(q) + w.y + o.dy <= center_y(q, w, o) <= box_bottom(q) + w.y + o.dy,
{
}

} // verus!
