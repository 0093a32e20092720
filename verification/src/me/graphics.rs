//! Deterministic MIDP Graphics operations over a neutral ARGB image:
//! `setColor`/`setFont`/clip/`translate`/`fillRect`/`drawRect`/`drawLine`/
//! `fillTriangle`/`drawImage`/`drawRegion` (with `GraphicsError` and
//! `SpriteTransform`), per-pixel plotting for vendor blitters, and a public
//! [`anchor_top_left`] anchor resolver.

use vstd::prelude::*;
use crate::canvas::{in_bounds, pixel_index, source_over, source_over_spec, Image, ImageView};
use crate::me::font::{default_font_spec, FontSpec};

verus! {

pub const HCENTER: i32 = 1;
pub const VCENTER: i32 = 2;
pub const LEFT: i32 = 4;
pub const RIGHT: i32 = 8;
pub const TOP: i32 = 16;
pub const BOTTOM: i32 = 32;
pub const BASELINE: i32 = 64;
pub const TOP_LEFT: i32 = 20;

#[derive(Clone, Copy, Debug, Eq, PartialEq, Structural)]
pub enum GraphicsError {
    InvalidAnchor(i32),
    InvalidSourceRegion,
    InvalidTransform(i32),
}

/// The eight MIDP sprite transforms, numbered `0..=7` in declaration order
/// as `Sprite.TRANS_*` numbers them.
#[derive(Clone, Copy, Debug, Eq, PartialEq, Structural)]
pub enum SpriteTransform {
    /// `TRANS_NONE`.
    Identity,
    MirrorRotate180,
    Mirror,
    Rotate180,
    MirrorRotate270,
    Rotate90,
    Rotate270,
    MirrorRotate90,
}

/// The transform a MIDP `TRANS_*` number names, if any.
pub open spec fn transform_of(value: i32) -> Option<SpriteTransform> {
    if value == 0 {
        Some(SpriteTransform::Identity)
    } else if value == 1 {
        Some(SpriteTransform::MirrorRotate180)
    } else if value == 2 {
        Some(SpriteTransform::Mirror)
    } else if value == 3 {
        Some(SpriteTransform::Rotate180)
    } else if value == 4 {
        Some(SpriteTransform::MirrorRotate270)
    } else if value == 5 {
        Some(SpriteTransform::Rotate90)
    } else if value == 6 {
        Some(SpriteTransform::Rotate270)
    } else if value == 7 {
        Some(SpriteTransform::MirrorRotate90)
    } else {
        None
    }
}

/// Whether a transform swaps the axes.
pub open spec fn swaps_axes(t: SpriteTransform) -> bool {
    t == SpriteTransform::MirrorRotate270 || t == SpriteTransform::Rotate90 || t == SpriteTransform::Rotate270
        || t == SpriteTransform::MirrorRotate90
}

/// Where source pixel `(x, y)` of a `width` by `height` region lands,
/// relative to the transformed region's top-left corner.
pub open spec fn destination_spec(t: SpriteTransform, x: int, y: int, width: int, height: int) -> (int, int) {
    match t {
        SpriteTransform::Identity => (x, y),
        SpriteTransform::MirrorRotate180 => (x, height - 1 - y),
        SpriteTransform::Mirror => (width - 1 - x, y),
        SpriteTransform::Rotate180 => (width - 1 - x, height - 1 - y),
        SpriteTransform::MirrorRotate270 => (y, x),
        SpriteTransform::Rotate90 => (height - 1 - y, x),
        SpriteTransform::Rotate270 => (y, width - 1 - x),
        SpriteTransform::MirrorRotate90 => (height - 1 - y, width - 1 - x),
    }
}

/// The source pixel that lands at offset `(ox, oy)`: the inverse of
/// [`destination_spec`].
pub open spec fn origin_spec(t: SpriteTransform, ox: int, oy: int, width: int, height: int) -> (int, int) {
    match t {
        SpriteTransform::Identity => (ox, oy),
        SpriteTransform::MirrorRotate180 => (ox, height - 1 - oy),
        SpriteTransform::Mirror => (width - 1 - ox, oy),
        SpriteTransform::Rotate180 => (width - 1 - ox, height - 1 - oy),
        SpriteTransform::MirrorRotate270 => (oy, ox),
        SpriteTransform::Rotate90 => (oy, height - 1 - ox),
        SpriteTransform::Rotate270 => (width - 1 - oy, ox),
        SpriteTransform::MirrorRotate90 => (width - 1 - oy, height - 1 - ox),
    }
}

impl SpriteTransform {
    /// `Sprite.TRANS_*` number to transform; anything else is rejected.
    pub fn from_code(value: i32) -> (r: Result<Self, GraphicsError>)
        ensures
            match transform_of(value) {
                Some(t) => r == Ok::<SpriteTransform, GraphicsError>(t),
                None => r == Err::<SpriteTransform, GraphicsError>(GraphicsError::InvalidTransform(value)),
            },
    {
        if value == 0 {
            Ok(SpriteTransform::Identity)
        } else if value == 1 {
            Ok(SpriteTransform::MirrorRotate180)
        } else if value == 2 {
            Ok(SpriteTransform::Mirror)
        } else if value == 3 {
            Ok(SpriteTransform::Rotate180)
        } else if value == 4 {
            Ok(SpriteTransform::MirrorRotate270)
        } else if value == 5 {
            Ok(SpriteTransform::Rotate90)
        } else if value == 6 {
            Ok(SpriteTransform::Rotate270)
        } else if value == 7 {
            Ok(SpriteTransform::MirrorRotate90)
        } else {
            Err(GraphicsError::InvalidTransform(value))
        }
    }

    fn output_size(self, width: i32, height: i32) -> (r: (i32, i32))
        ensures
            r == if swaps_axes(self) {
                (height, width)
            } else {
                (width, height)
            },
    {
        match self {
            SpriteTransform::MirrorRotate270 | SpriteTransform::Rotate90 | SpriteTransform::Rotate270
            | SpriteTransform::MirrorRotate90 => (height, width),
            _ => (width, height),
        }
    }

    fn destination(self, x: i32, y: i32, width: i32, height: i32) -> (r: (i32, i32))
        requires
            0 <= x < width,
            0 <= y < height,
        ensures
            (r.0 as int, r.1 as int) == destination_spec(self, x as int, y as int, width as int, height as int),
    {
        match self {
            SpriteTransform::Identity => (x, y),
            SpriteTransform::MirrorRotate180 => (x, height - 1 - y),
            SpriteTransform::Mirror => (width - 1 - x, y),
            SpriteTransform::Rotate180 => (width - 1 - x, height - 1 - y),
            SpriteTransform::MirrorRotate270 => (y, x),
            SpriteTransform::Rotate90 => (height - 1 - y, x),
            SpriteTransform::Rotate270 => (y, width - 1 - x),
            SpriteTransform::MirrorRotate90 => (height - 1 - y, width - 1 - x),
        }
    }
}

/// Every transform maps the source region one to one onto the output
/// rectangle, and [`origin_spec`] undoes it.
pub proof fn lemma_transform_bijective(t: SpriteTransform, x: int, y: int, width: int, height: int)
    requires
        0 <= x < width,
        0 <= y < height,
    ensures
        ({
            let (ox, oy) = destination_spec(t, x, y, width, height);
            let (ow, oh) = if swaps_axes(t) {
                (height, width)
            } else {
                (width, height)
            };
            &&& 0 <= ox < ow
            &&& 0 <= oy < oh
            &&& origin_spec(t, ox, oy, width, height) == (x, y)
        }),
{
}


/// The inverse direction: every output cell comes from exactly one source
/// cell.
pub proof fn lemma_transform_origin(t: SpriteTransform, ox: int, oy: int, width: int, height: int)
    requires
        ({
            let (ow, oh) = if swaps_axes(t) {
                (height, width)
            } else {
                (width, height)
            };
            0 <= ox < ow && 0 <= oy < oh
        }),
    ensures
        ({
            let (x, y) = origin_spec(t, ox, oy, width, height);
            &&& 0 <= x < width
            &&& 0 <= y < height
            &&& destination_spec(t, x, y, width, height) == (ox, oy)
        }),
{
}

proof fn lemma_wrap_characterized(z: int, v: int)
    requires
        i32::MIN <= v <= i32::MAX,
    ensures
        (crate::jvm::wrap_i32(z) == v) <==> ((z - v) % 0x1_0000_0000 == 0),
{
    let m = z % 0x1_0000_0000;
    vstd::arithmetic::div_mod::lemma_fundamental_div_mod(z, 0x1_0000_0000);
    vstd::arithmetic::div_mod::lemma_fundamental_div_mod(z - v, 0x1_0000_0000);
    let q = z / 0x1_0000_0000;
    let q2 = (z - v) / 0x1_0000_0000;
    if (z - v) % 0x1_0000_0000 == 0 {
        assert(z == q2 * 0x1_0000_0000 + v);
        if v >= 0 {
            vstd::arithmetic::div_mod::lemma_mod_multiples_vanish(q2, v, 0x1_0000_0000);
            vstd::arithmetic::div_mod::lemma_small_mod(v as nat, 0x1_0000_0000);
        } else {
            vstd::arithmetic::div_mod::lemma_mod_multiples_vanish(q2 - 1, v + 0x1_0000_0000, 0x1_0000_0000);
            vstd::arithmetic::div_mod::lemma_small_mod((v + 0x1_0000_0000) as nat, 0x1_0000_0000);
            assert(z == (q2 - 1) * 0x1_0000_0000 + (v + 0x1_0000_0000)) by (nonlinear_arith)
                requires
                    z == q2 * 0x1_0000_0000 + v,
            ;
        }
    }
    if crate::jvm::wrap_i32(z) == v {
        let k = if m > 0x7fff_ffff { q + 1 } else { q };
        assert(z - v == k * 0x1_0000_0000) by (nonlinear_arith)
            requires
                z == q * 0x1_0000_0000 + m,
                v == (if m > 0x7fff_ffff { m - 0x1_0000_0000 } else { m }),
                k == (if m > 0x7fff_ffff { q + 1 } else { q }),
        ;
        vstd::arithmetic::div_mod::lemma_mod_multiples_basic(k, 0x1_0000_0000);
    }
}

/// Reaching `a` from `left` by a wrapped offset `o` is the same as measuring
/// the wrapped offset from `left` to `a`.
pub(crate) proof fn lemma_wrap_offset(left: i32, o: int, a: int)
    requires
        i32::MIN <= o <= i32::MAX,
        i32::MIN <= a <= i32::MAX,
    ensures
        (crate::jvm::wrap_i32(left + o) == a) <==> (crate::jvm::wrap_i32(a - left) == o),
{
    lemma_wrap_characterized(left + o, a);
    lemma_wrap_characterized(a - left, o);
    let d = left + o - a;
    if d % 0x1_0000_0000 == 0 {
        vstd::arithmetic::div_mod::lemma_fundamental_div_mod(d, 0x1_0000_0000);
        vstd::arithmetic::div_mod::lemma_mod_multiples_basic(-(d / 0x1_0000_0000), 0x1_0000_0000);
        assert(-d == -(d / 0x1_0000_0000) * 0x1_0000_0000) by (nonlinear_arith)
            requires
                d == 0x1_0000_0000 * (d / 0x1_0000_0000) + d % 0x1_0000_0000,
                d % 0x1_0000_0000 == 0,
        ;
    }
    if (-d) % 0x1_0000_0000 == 0 {
        vstd::arithmetic::div_mod::lemma_fundamental_div_mod(-d, 0x1_0000_0000);
        vstd::arithmetic::div_mod::lemma_mod_multiples_basic(-((-d) / 0x1_0000_0000), 0x1_0000_0000);
        assert(d == -((-d) / 0x1_0000_0000) * 0x1_0000_0000) by (nonlinear_arith)
            requires
                -d == 0x1_0000_0000 * ((-d) / 0x1_0000_0000) + (-d) % 0x1_0000_0000,
                (-d) % 0x1_0000_0000 == 0,
        ;
    }
}

/// A rectangle in target coordinates; width and height may be negative
/// (empty).
#[derive(Clone, Copy, Debug, Eq, PartialEq, Structural)]
pub struct Rect {
    pub x: i32,
    pub y: i32,
    pub width: i32,
    pub height: i32,
}

pub open spec fn max_int(a: int, b: int) -> int {
    if a >= b { a } else { b }
}

pub open spec fn min_int(a: int, b: int) -> int {
    if a <= b { a } else { b }
}

/// The overlap of two rectangles, empty (zero-sized) when they are disjoint.
pub open spec fn intersect_spec(a: Rect, b: Rect) -> Rect {
    let left = max_int(a.x as int, b.x as int);
    let top = max_int(a.y as int, b.y as int);
    let right = min_int(a.x + a.width, b.x + b.width);
    let bottom = min_int(a.y + a.height, b.y + b.height);
    Rect {
        x: left as i32,
        y: top as i32,
        width: min_int(max_int(right - left, 0), i32::MAX as int) as i32,
        height: min_int(max_int(bottom - top, 0), i32::MAX as int) as i32,
    }
}

/// Whether `(x, y)` lies in `r`.
pub open spec fn rect_contains(r: Rect, x: int, y: int) -> bool {
    r.x <= x < r.x + r.width && r.y <= y < r.y + r.height
}

impl Rect {
    fn intersect(self, other: Self) -> (r: Self)
        ensures
            r == intersect_spec(self, other),
            r.width >= 0 && r.height >= 0,
            r.x >= self.x && r.x >= other.x && r.y >= self.y && r.y >= other.y,
            r.width > 0 ==> r.x + r.width <= self.x + self.width && r.x + r.width <= other.x + other.width,
            r.height > 0 ==> r.y + r.height <= self.y + self.height && r.y + r.height <= other.y + other.height,
            forall|x: int, y: int| rect_contains(r, x, y) <==> rect_contains(self, x, y) && rect_contains(other, x, y),
    {
        let left: i64 = if self.x >= other.x { self.x as i64 } else { other.x as i64 };
        let top: i64 = if self.y >= other.y { self.y as i64 } else { other.y as i64 };
        let self_right = self.x as i64 + self.width as i64;
        let other_right = other.x as i64 + other.width as i64;
        let right: i64 = if self_right <= other_right { self_right } else { other_right };
        let self_bottom = self.y as i64 + self.height as i64;
        let other_bottom = other.y as i64 + other.height as i64;
        let bottom: i64 = if self_bottom <= other_bottom { self_bottom } else { other_bottom };
        let width: i64 = if right - left > 0 { right - left } else { 0 };
        let height: i64 = if bottom - top > 0 { bottom - top } else { 0 };
        Rect {
            x: left as i32,
            y: top as i32,
            width: if width > i32::MAX as i64 { i32::MAX } else { width as i32 },
            height: if height > i32::MAX as i64 { i32::MAX } else { height as i32 },
        }
    }

    fn contains(self, x: i32, y: i32) -> (r: bool)
        ensures
            r == rect_contains(self, x as int, y as int),
    {
        x as i64 >= self.x as i64 && y as i64 >= self.y as i64 && (x as i64) < self.x as i64 + self.width as i64
            && (y as i64) < self.y as i64 + self.height as i64
    }
}

/// What a drawing operation does to an image: the raster keeps its size, and
/// each pixel takes the colour `paint` gives it, or keeps its old colour where
/// `paint` gives none.
pub open spec fn repainted(before: ImageView, after: ImageView, paint: spec_fn(int, int) -> Option<u32>) -> bool {
    &&& after.width == before.width
    &&& after.height == before.height
    &&& after.mutable == before.mutable
    &&& after.pixels.len() == before.pixels.len()
    &&& forall|x: int, y: int|
        #![trigger after.pixels[pixel_index(before.width, x, y)]]
        in_bounds(before.width, before.height, x, y) ==> after.pixels[pixel_index(before.width, x, y)]
            == match paint(x, y) {
            Some(c) => c,
            None => before.pixels[pixel_index(before.width, x, y)],
        }
}

proof fn lemma_index_injective(width: int, height: int, x1: int, y1: int, x2: int, y2: int)
    requires
        in_bounds(width, height, x1, y1),
        in_bounds(width, height, x2, y2),
        pixel_index(width, x1, y1) == pixel_index(width, x2, y2),
    ensures
        x1 == x2 && y1 == y2,
{
    if y1 < y2 {
        assert(y1 * width + width <= y2 * width) by (nonlinear_arith)
            requires
                y1 < y2,
                width > 0,
        ;
    } else if y2 < y1 {
        assert(y2 * width + width <= y1 * width) by (nonlinear_arith)
            requires
                y2 < y1,
                width > 0,
        ;
    }
}

proof fn lemma_index_range(width: int, height: int, x: int, y: int)
    requires
        in_bounds(width, height, x, y),
    ensures
        0 <= pixel_index(width, x, y) < width * height,
{
    assert(y * width + x < width * height) by (nonlinear_arith)
        requires
            0 <= x < width,
            0 <= y < height,
    ;
    assert(0 <= y * width) by (nonlinear_arith)
        requires
            0 <= y,
            0 <= width,
    ;
}

/// Nothing painted yet.
pub open spec fn no_paint() -> spec_fn(int, int) -> Option<u32> {
    |x: int, y: int| None::<u32>
}

pub(crate) proof fn lemma_repainted_nothing(image: ImageView)
    ensures
        repainted(image, image, no_paint()),
{
}

/// One more pixel written: extends a repaint by `(x, y) ↦ value`.
pub(crate) proof fn lemma_repaint_step(
    before: ImageView,
    current: ImageView,
    after: ImageView,
    paint: spec_fn(int, int) -> Option<u32>,
    next: spec_fn(int, int) -> Option<u32>,
    x: int,
    y: int,
    value: u32,
)
    requires
        before.width > 0 && before.height > 0,
        before.pixels.len() == before.width * before.height,
        repainted(before, current, paint),
        in_bounds(before.width, before.height, x, y),
        after.width == current.width && after.height == current.height && after.mutable == current.mutable,
        after.pixels == current.pixels.update(pixel_index(before.width, x, y), value),
        next(x, y) == Some(value),
        forall|a: int, b: int| (a != x || b != y) ==> #[trigger] next(a, b) == paint(a, b),
    ensures
        repainted(before, after, next),
{
    lemma_index_range(before.width, before.height, x, y);
    assert forall|a: int, b: int| #![trigger after.pixels[pixel_index(before.width, a, b)]]
        in_bounds(before.width, before.height, a, b) implies after.pixels[pixel_index(before.width, a, b)]
        == match next(a, b) {
        Some(c) => c,
        None => before.pixels[pixel_index(before.width, a, b)],
    } by {
        lemma_index_range(before.width, before.height, a, b);
        if a != x || b != y {
            if pixel_index(before.width, a, b) == pixel_index(before.width, x, y) {
                lemma_index_injective(before.width, before.height, a, b, x, y);
            }
            assert(after.pixels[pixel_index(before.width, a, b)] == current.pixels[pixel_index(
                before.width,
                a,
                b,
            )]);
        }
    }
}


/// Two paint rules that agree on the raster describe the same repaint.
pub(crate) proof fn lemma_repaint_congruent(
    before: ImageView,
    after: ImageView,
    paint: spec_fn(int, int) -> Option<u32>,
    other: spec_fn(int, int) -> Option<u32>,
)
    requires
        repainted(before, after, paint),
        forall|a: int, b: int| in_bounds(before.width, before.height, a, b) ==> #[trigger] other(a, b) == paint(a, b),
    ensures
        repainted(before, after, other),
{
    assert forall|x: int, y: int| #![trigger after.pixels[pixel_index(before.width, x, y)]]
        in_bounds(before.width, before.height, x, y) implies after.pixels[pixel_index(before.width, x, y)]
        == match other(x, y) {
        Some(c) => c,
        None => before.pixels[pixel_index(before.width, x, y)],
    } by {
        assert(other(x, y) == paint(x, y));
    }
}

/// The cells of `area` in rows above `row`, and in row `row` left of `col`,
/// painted with `color`.
pub open spec fn scan_paint(
    area: Rect,
    row: int,
    col: int,
    covered: spec_fn(int, int) -> bool,
    value: spec_fn(int, int) -> u32,
) -> spec_fn(int, int) -> Option<u32> {
    |a: int, b: int|
        if rect_contains(area, a, b) && covered(a, b) && (b < row || (b == row && a < col)) {
            Some(value(a, b))
        } else {
            None
        }
}

/// The cells of `area` that `covered` selects, painted with `value`.
pub open spec fn area_paint(
    area: Rect,
    covered: spec_fn(int, int) -> bool,
    value: spec_fn(int, int) -> u32,
) -> spec_fn(int, int) -> Option<u32> {
    |a: int, b: int|
        if rect_contains(area, a, b) && covered(a, b) {
            Some(value(a, b))
        } else {
            None
        }
}


/// The signed area test of point `p` against the directed edge `a → b`.
pub open spec fn edge_spec(ax: int, ay: int, bx: int, by: int, px: int, py: int) -> int {
    (px - ax) * (by - ay) - (py - ay) * (bx - ax)
}

/// Whether the centre of pixel `(x, y)` lies in the closed triangle with
/// the given vertices: tested on doubled coordinates so the half-pixel centre
/// stays integral; a point on an edge counts as inside.
pub open spec fn triangle_covers(x1: int, y1: int, x2: int, y2: int, x3: int, y3: int, x: int, y: int) -> bool {
    let px = 2 * x + 1;
    let py = 2 * y + 1;
    let e0 = edge_spec(2 * x1, 2 * y1, 2 * x2, 2 * y2, px, py);
    let e1 = edge_spec(2 * x2, 2 * y2, 2 * x3, 2 * y3, px, py);
    let e2 = edge_spec(2 * x3, 2 * y3, 2 * x1, 2 * y1, px, py);
    (e0 >= 0 && e1 >= 0 && e2 >= 0) || (e0 <= 0 && e1 <= 0 && e2 <= 0)
}

fn edge(ax: i128, ay: i128, bx: i128, by: i128, px: i128, py: i128) -> (r: i128)
    requires
        -0x4_0000_0000 <= ax <= 0x4_0000_0000,
        -0x4_0000_0000 <= ay <= 0x4_0000_0000,
        -0x4_0000_0000 <= bx <= 0x4_0000_0000,
        -0x4_0000_0000 <= by <= 0x4_0000_0000,
        -0x4_0000_0000 <= px <= 0x4_0000_0000,
        -0x4_0000_0000 <= py <= 0x4_0000_0000,
    ensures
        r == edge_spec(ax as int, ay as int, bx as int, by as int, px as int, py as int),
{
    let dx = px - ax;
    let dy = by - ay;
    let ex = py - ay;
    let ey = bx - ax;
    assert(-0x40_0000_0000_0000_0000 <= dx * dy <= 0x40_0000_0000_0000_0000) by (nonlinear_arith)
        requires
            -0x8_0000_0000 <= dx <= 0x8_0000_0000,
            -0x8_0000_0000 <= dy <= 0x8_0000_0000,
    ;
    assert(-0x40_0000_0000_0000_0000 <= ex * ey <= 0x40_0000_0000_0000_0000) by (nonlinear_arith)
        requires
            -0x8_0000_0000 <= ex <= 0x8_0000_0000,
            -0x8_0000_0000 <= ey <= 0x8_0000_0000,
    ;
    dx * dy - ex * ey
}

fn covers(x1: i32, y1: i32, x2: i32, y2: i32, x3: i32, y3: i32, x: i32, y: i32) -> (r: bool)
    ensures
        r == triangle_covers(x1 as int, y1 as int, x2 as int, y2 as int, x3 as int, y3 as int, x as int, y as int),
{
    let px = x as i128 * 2 + 1;
    let py = y as i128 * 2 + 1;
    let e0 = edge(x1 as i128 * 2, y1 as i128 * 2, x2 as i128 * 2, y2 as i128 * 2, px, py);
    let e1 = edge(x2 as i128 * 2, y2 as i128 * 2, x3 as i128 * 2, y3 as i128 * 2, px, py);
    let e2 = edge(x3 as i128 * 2, y3 as i128 * 2, x1 as i128 * 2, y1 as i128 * 2, px, py);
    !(e0 < 0 || e1 < 0 || e2 < 0) || !(e0 > 0 || e1 > 0 || e2 > 0)
}

fn min3(a: i32, b: i32, c: i32) -> (r: i32)
    ensures
        r == min_int(min_int(a as int, b as int), c as int),
{
    let m = if a <= b { a } else { b };
    if m <= c { m } else { c }
}

fn max3(a: i32, b: i32, c: i32) -> (r: i32)
    ensures
        r == max_int(max_int(a as int, b as int), c as int),
{
    let m = if a >= b { a } else { b };
    if m >= c { m } else { c }
}

/// `max - min + 1` saturated to Java `int`, as the triangle's bounding box
/// measures it.
pub open spec fn span_of(min: int, max: int) -> int {
    let d = if max - min > i32::MAX { i32::MAX as int } else { max - min };
    if d + 1 > i32::MAX { i32::MAX as int } else { d + 1 }
}

fn span(min: i32, max: i32) -> (r: i32)
    requires
        min <= max,
    ensures
        r == span_of(min as int, max as int),
{
    let d: i64 = max as i64 - min as i64;
    let d: i32 = if d > i32::MAX as i64 { i32::MAX } else { d as i32 };
    if d == i32::MAX { i32::MAX } else { d + 1 }
}


/// Java integer division of a width by two, rounding toward zero.
pub open spec fn half(v: int) -> int {
    if v >= 0 { v / 2 } else { -((-v) / 2) }
}

fn half_exec(v: i32) -> (r: i32)
    ensures
        r == half(v as int),
{
    if v >= 0 {
        ((v as u32) / 2) as i32
    } else {
        let m: u64 = (-(v as i64)) as u64;
        -((m / 2) as i64) as i32
    }
}

/// How a MIDP anchor places a `width` by `height` box at `(x, y)`: its
/// top-left corner, or `InvalidAnchor` for an unknown bit or a contradictory
/// (or `BASELINE`) combination.
pub open spec fn anchor_spec(x: i32, y: i32, width: i32, height: i32, anchor: i32) -> Result<(i32, i32), GraphicsError> {
    let horizontal = anchor & 13i32;
    let vertical = anchor & 114i32;
    if (anchor & !127i32) != 0 || !(horizontal == 0 || horizontal == LEFT || horizontal == HCENTER || horizontal
        == RIGHT) || !(vertical == 0 || vertical == TOP || vertical == VCENTER || vertical == BOTTOM) {
        Err(GraphicsError::InvalidAnchor(anchor))
    } else {
        Ok(
            (
                if horizontal == RIGHT {
                    wrapping(x - width)
                } else if horizontal == HCENTER {
                    wrapping(x - half(width as int))
                } else {
                    x
                },
                if vertical == BOTTOM {
                    wrapping(y - height)
                } else if vertical == VCENTER {
                    wrapping(y - half(height as int))
                } else {
                    y
                },
            ),
        )
    }
}

/// Resolve a MIDP anchor to the top-left draw position, validating the anchor
/// bits (`IllegalArgumentException` on an unknown or contradictory combination).
pub fn anchor_top_left(x: i32, y: i32, width: i32, height: i32, anchor: i32) -> (r: Result<(i32, i32), GraphicsError>)
    ensures
        r == anchor_spec(x, y, width, height, anchor),
{
    let horizontal = anchor & (LEFT | HCENTER | RIGHT);
    let vertical = anchor & (TOP | VCENTER | BOTTOM | BASELINE);
    let known = LEFT | HCENTER | RIGHT | TOP | VCENTER | BOTTOM | BASELINE;
    assert(LEFT | HCENTER | RIGHT == 13i32) by (bit_vector);
    assert(TOP | VCENTER | BOTTOM | BASELINE == 114i32) by (bit_vector);
    assert(LEFT | HCENTER | RIGHT | TOP | VCENTER | BOTTOM | BASELINE == 127i32) by (bit_vector);
    if anchor & !known != 0 || !(horizontal == 0 || horizontal == LEFT || horizontal == HCENTER || horizontal == RIGHT)
        || !(vertical == 0 || vertical == TOP || vertical == VCENTER || vertical == BOTTOM) {
        return Err(GraphicsError::InvalidAnchor(anchor));
    }
    let left = if horizontal == RIGHT {
        crate::jvm::i32_sub(x, width)
    } else if horizontal == HCENTER {
        crate::jvm::i32_sub(x, half_exec(width))
    } else {
        x
    };
    let top = if vertical == BOTTOM {
        crate::jvm::i32_sub(y, height)
    } else if vertical == VCENTER {
        crate::jvm::i32_sub(y, half_exec(height))
    } else {
        y
    };
    Ok((left, top))
}


/// The output size of a `width` by `height` region under `t`.
pub open spec fn output_size_spec(t: SpriteTransform, width: int, height: int) -> (int, int) {
    if swaps_axes(t) {
        (height, width)
    } else {
        (width, height)
    }
}

/// Whether `region` is a non-empty part of `source`.
pub open spec fn region_ok(source: ImageView, region: Rect) -> bool {
    &&& region.width > 0
    &&& region.height > 0
    &&& region.x >= 0
    &&& region.y >= 0
    &&& region.x + region.width <= source.width
    &&& region.y + region.height <= source.height
}

/// The source cell of `region`, transformed by `t`, that lands on target
/// pixel `(a, b)` when the output's top-left corner is `(left, top)`.
pub open spec fn region_origin(t: SpriteTransform, region: Rect, left: i32, top: i32, a: int, b: int) -> Option<
    (int, int),
> {
    let (ow, oh) = output_size_spec(t, region.width as int, region.height as int);
    let ox = crate::jvm::wrap_i32(a - left);
    let oy = crate::jvm::wrap_i32(b - top);
    if 0 <= ox < ow && 0 <= oy < oh {
        Some(origin_spec(t, ox, oy, region.width as int, region.height as int))
    } else {
        None
    }
}

/// A region blit: each clipped target pixel whose source cell `done`
/// selects takes that source pixel composited over its old colour.
pub open spec fn region_paint(
    source: ImageView,
    before: ImageView,
    t: SpriteTransform,
    region: Rect,
    left: i32,
    top: i32,
    clip: Rect,
    done: spec_fn(int, int) -> bool,
) -> spec_fn(int, int) -> Option<u32> {
    |a: int, b: int|
        match region_origin(t, region, left, top, a, b) {
            Some((sx, sy)) => if rect_contains(clip, a, b) && done(sx, sy) {
                Some(
                    source_over_spec(
                        source.pixels[pixel_index(source.width, region.x + sx, region.y + sy)],
                        before.pixels[pixel_index(before.width, a, b)],
                    ),
                )
            } else {
                None
            },
            None => None,
        }
}

/// Row-major progress through a region: cells before `(col, row)`.
pub open spec fn before_cell(row: int, col: int) -> spec_fn(int, int) -> bool {
    |sx: int, sy: int| sy < row || (sy == row && sx < col)
}

/// Every cell.
pub open spec fn every_cell() -> spec_fn(int, int) -> bool {
    |sx: int, sy: int| true
}


pub open spec fn abs_int(v: int) -> int {
    if v < 0 { -v } else { v }
}

/// One step of Bresenham's all-octant line walk from `(x, y)` with error
/// term `e` towards the end point.
pub open spec fn line_step(x: int, y: int, e: int, end_x: int, end_y: int, x0: int, y0: int) -> (int, int, int) {
    let dx = abs_int(end_x - x0);
    let dy = -abs_int(end_y - y0);
    let step_x: int = if x0 < end_x { 1 } else { -1 };
    let step_y: int = if y0 < end_y { 1 } else { -1 };
    let doubled = 2 * e;
    let (x1, e1) = if doubled >= dy { (x + step_x, e + dy) } else { (x, e) };
    let (y1, e2) = if doubled <= dx { (y + step_y, e1 + dx) } else { (y, e1) };
    (x1, y1, e2)
}

/// The walk's state after `k` steps from `(x0, y0)`; it rests once it has
/// reached the end point.
pub open spec fn line_state(x0: int, y0: int, end_x: int, end_y: int, k: nat) -> (int, int, int)
    decreases k,
{
    if k == 0 {
        (x0, y0, abs_int(end_x - x0) - abs_int(end_y - y0))
    } else {
        let (x, y, e) = line_state(x0, y0, end_x, end_y, (k - 1) as nat);
        if x == end_x && y == end_y {
            (x, y, e)
        } else {
            line_step(x, y, e, end_x, end_y, x0, y0)
        }
    }
}

/// Whether pixel `(a, b)` is one of the first `count` points of the walk.
pub open spec fn on_line_before(x0: int, y0: int, end_x: int, end_y: int, count: int, a: int, b: int) -> bool {
    exists|k: nat| k < count && #[trigger] line_state(x0, y0, end_x, end_y, k).0 == a && line_state(x0, y0, end_x, end_y, k).1
        == b
}

/// Whether pixel `(a, b)` lies on the line from `(x0, y0)` to
/// `(end_x, end_y)`: the walk reaches the end within `|dx| + |dy|` steps.
pub open spec fn on_line(x0: int, y0: int, end_x: int, end_y: int, a: int, b: int) -> bool {
    on_line_before(x0, y0, end_x, end_y, abs_int(end_x - x0) + abs_int(end_y - y0) + 1, a, b)
}

/// A line's clipped pixels in one colour.
pub open spec fn line_paint(x0: int, y0: int, end_x: int, end_y: int, count: int, clip: Rect, color: u32) -> spec_fn(
    int,
    int,
) -> Option<u32> {
    |a: int, b: int|
        if on_line_before(x0, y0, end_x, end_y, count, a, b) && rect_contains(clip, a, b) {
            Some(color)
        } else {
            None
        }
}

proof fn lemma_line_rests(x0: int, y0: int, end_x: int, end_y: int, k: nat, m: nat)
    requires
        k <= m,
        line_state(x0, y0, end_x, end_y, k).0 == end_x,
        line_state(x0, y0, end_x, end_y, k).1 == end_y,
    ensures
        line_state(x0, y0, end_x, end_y, m) == line_state(x0, y0, end_x, end_y, k),
    decreases m - k,
{
    if m > k {
        lemma_line_rests(x0, y0, end_x, end_y, k, (m - 1) as nat);
    }
}


/// `q` painted over `p`.
pub open spec fn overlay(p: spec_fn(int, int) -> Option<u32>, q: spec_fn(int, int) -> Option<u32>) -> spec_fn(
    int,
    int,
) -> Option<u32> {
    |a: int, b: int|
        match q(a, b) {
            Some(c) => Some(c),
            None => p(a, b),
        }
}

/// Two drawing operations in a row repaint with the second over the first.
pub proof fn lemma_repaint_compose(
    first: ImageView,
    middle: ImageView,
    last: ImageView,
    p: spec_fn(int, int) -> Option<u32>,
    q: spec_fn(int, int) -> Option<u32>,
)
    requires
        repainted(first, middle, p),
        repainted(middle, last, q),
    ensures
        repainted(first, last, overlay(p, q)),
{
    assert forall|x: int, y: int| #![trigger last.pixels[pixel_index(first.width, x, y)]]
        in_bounds(first.width, first.height, x, y) implies last.pixels[pixel_index(first.width, x, y)]
        == match overlay(p, q)(x, y) {
        Some(c) => c,
        None => first.pixels[pixel_index(first.width, x, y)],
    } by {
        assert(middle.pixels[pixel_index(first.width, x, y)] == match p(x, y) {
            Some(c) => c,
            None => first.pixels[pixel_index(first.width, x, y)],
        });
    }
}

/// The drawing state of a [`Graphics`] context.
pub struct GraphicsState {
    /// The opaque `0xAARRGGBB` colour that fills and lines use.
    pub color: u32,
    pub font: FontSpec,
    pub translate_x: i32,
    pub translate_y: i32,
    /// The clip in target coordinates, always inside the target.
    pub clip: Rect,
}

pub struct Graphics<'a> {
    target: &'a mut Image,
    color: u32,
    font: FontSpec,
    translate_x: i32,
    translate_y: i32,
    clip: Rect,
}

/// Java `int` addition with wrap-around, as `wrapping_add` computes it.
pub open spec fn wrapping(a: int) -> i32 {
    crate::jvm::wrap_i32(a) as i32
}

/// The target bounds of an image.
pub open spec fn full_bounds_of(image: ImageView) -> Rect {
    Rect { x: 0, y: 0, width: image.width as i32, height: image.height as i32 }
}

impl<'a> Graphics<'a> {
    /// The image this context draws into, as it stands now.
    pub closed spec fn target_image(&self) -> Image {
        *self.target
    }

    pub closed spec fn state(&self) -> GraphicsState {
        GraphicsState {
            color: self.color,
            font: self.font,
            translate_x: self.translate_x,
            translate_y: self.translate_y,
            clip: self.clip,
        }
    }

    /// The target is well formed and the clip lies inside it.
    pub open spec fn wf(&self) -> bool {
        &&& self.target_image().wf()
        &&& self.state().clip.width >= 0
        &&& self.state().clip.height >= 0
        &&& forall|x: int, y: int|
            #[trigger] rect_contains(self.state().clip, x, y) ==> in_bounds(
                self.target_image()@.width,
                self.target_image()@.height,
                x,
                y,
            )
    }

    /// Everything but the target and the named state stays the same.
    pub open spec fn same_target(&self, other: &Self) -> bool {
        self.target_image() == other.target_image()
    }

    /// A fresh Java `Graphics` context: opaque black, the default font, no
    /// translation and the whole target as clip.
    pub fn new(target: &'a mut Image) -> (r: Self)
        requires
            old(target).wf(),
        ensures
            r.wf(),
            r.target_image() == *old(target),
            r.state() == (GraphicsState {
                color: 0xff00_0000,
                font: default_font_spec(),
                translate_x: 0,
                translate_y: 0,
                clip: full_bounds_of(old(target)@),
            }),
    {
        let width = target.width();
        let height = target.height();
        let clip = Rect { x: 0, y: 0, width, height };
        Graphics {
            target,
            color: 0xff00_0000,
            font: FontSpec::default_font(),
            translate_x: 0,
            translate_y: 0,
            clip,
        }
    }

    /// `setColor(rgb)`: the low 24 bits, fully opaque.
    pub fn set_color(&mut self, rgb: i32)
        requires
            old(self).wf(),
        ensures
            final(self).wf(),
            final(self).same_target(old(self)),
            final(self).state() == (GraphicsState { color: 0xff00_0000u32 | (rgb as u32 & 0x00ff_ffffu32), ..old(self).state() }),
    {
        self.color = 0xff00_0000u32 | (rgb as u32 & 0x00ff_ffffu32);
    }

    /// `setColor(red, green, blue)`: each component's low byte.
    pub fn set_color_rgb(&mut self, red: i32, green: i32, blue: i32)
        requires
            old(self).wf(),
        ensures
            final(self).wf(),
            final(self).same_target(old(self)),
            final(self).state() == (GraphicsState {
                color: 0xff00_0000u32 | (((red & 0xff) as u32) << 16u32) | (((green & 0xff) as u32) << 8u32) | ((blue
                    & 0xff) as u32),
                ..old(self).state()
            }),
    {
        self.color = 0xff00_0000u32 | (((red & 0xff) as u32) << 16u32) | (((green & 0xff) as u32) << 8u32) | ((blue
            & 0xff) as u32);
    }

    /// `getColor()`: the colour without its alpha byte.
    pub fn color(&self) -> (r: i32)
        ensures
            r == (self.state().color & 0x00ff_ffffu32) as i32,
    {
        (self.color & 0x00ff_ffff) as i32
    }

    /// `setFont(Font)`. MIDP specifies that a null reference selects the
    /// implementation's default font. Glyph drawing remains a separate
    /// device-provider operation.
    pub fn set_font(&mut self, font: Option<FontSpec>)
        requires
            old(self).wf(),
        ensures
            final(self).wf(),
            final(self).same_target(old(self)),
            final(self).state() == (GraphicsState {
                font: match font {
                    Some(f) => f,
                    None => default_font_spec(),
                },
                ..old(self).state()
            }),
    {
        self.font = match font {
            Some(f) => f,
            None => FontSpec::default_font(),
        };
    }

    /// `getFont()` -- the immutable descriptor used by later text operations.
    pub fn font(&self) -> (r: FontSpec)
        ensures
            r == self.state().font,
    {
        self.font
    }

    /// `translate(x, y)`: moves the origin, wrapping like Java `int`.
    pub fn translate(&mut self, x: i32, y: i32)
        requires
            old(self).wf(),
        ensures
            final(self).wf(),
            final(self).same_target(old(self)),
            final(self).state() == (GraphicsState {
                translate_x: wrapping(old(self).state().translate_x + x),
                translate_y: wrapping(old(self).state().translate_y + y),
                ..old(self).state()
            }),
    {
        self.translate_x = crate::jvm::i32_add(self.translate_x, x);
        self.translate_y = crate::jvm::i32_add(self.translate_y, y);
    }

    pub fn translate_x(&self) -> (r: i32)
        ensures
            r == self.state().translate_x,
    {
        self.translate_x
    }

    pub fn translate_y(&self) -> (r: i32)
        ensures
            r == self.state().translate_y,
    {
        self.translate_y
    }

    fn full_bounds(&self) -> (r: Rect)
        requires
            self.target_image().wf(),
        ensures
            r == full_bounds_of(self.target_image()@),
    {
        Rect { x: 0, y: 0, width: self.target.width(), height: self.target.height() }
    }

    /// `setClip`: the given rectangle, in translated coordinates, cut to the
    /// target.
    pub fn set_clip(&mut self, x: i32, y: i32, width: i32, height: i32)
        requires
            old(self).wf(),
        ensures
            final(self).wf(),
            final(self).same_target(old(self)),
            final(self).state() == (GraphicsState {
                clip: intersect_spec(
                    Rect {
                        x: wrapping(x + old(self).state().translate_x),
                        y: wrapping(y + old(self).state().translate_y),
                        width,
                        height,
                    },
                    full_bounds_of(old(self).target_image()@),
                ),
                ..old(self).state()
            }),
    {
        let requested = Rect {
            x: crate::jvm::i32_add(x, self.translate_x),
            y: crate::jvm::i32_add(y, self.translate_y),
            width,
            height,
        };
        let bounds = self.full_bounds();
        self.clip = requested.intersect(bounds);
    }

    /// `clipRect`: narrows the clip to its overlap with the given rectangle.
    pub fn clip_rect(&mut self, x: i32, y: i32, width: i32, height: i32)
        requires
            old(self).wf(),
        ensures
            final(self).wf(),
            final(self).same_target(old(self)),
            final(self).state() == (GraphicsState {
                clip: intersect_spec(
                    old(self).state().clip,
                    Rect {
                        x: wrapping(x + old(self).state().translate_x),
                        y: wrapping(y + old(self).state().translate_y),
                        width,
                        height,
                    },
                ),
                ..old(self).state()
            }),
    {
        let requested = Rect {
            x: crate::jvm::i32_add(x, self.translate_x),
            y: crate::jvm::i32_add(y, self.translate_y),
            width,
            height,
        };
        self.clip = self.clip.intersect(requested);
    }

    /// `getClipX()`, in translated coordinates.
    pub fn clip_x(&self) -> (r: i32)
        ensures
            r == wrapping(self.state().clip.x - self.state().translate_x),
    {
        crate::jvm::i32_sub(self.clip.x, self.translate_x)
    }

    /// `getClipY()`, in translated coordinates.
    pub fn clip_y(&self) -> (r: i32)
        ensures
            r == wrapping(self.state().clip.y - self.state().translate_y),
    {
        crate::jvm::i32_sub(self.clip.y, self.translate_y)
    }

    pub fn clip_width(&self) -> (r: i32)
        ensures
            r == self.state().clip.width,
    {
        self.clip.width
    }

    pub fn clip_height(&self) -> (r: i32)
        ensures
            r == self.state().clip.height,
    {
        self.clip.height
    }


    /// The target cells `fillRect(x, y, width, height)` covers: the
    /// translated rectangle cut to the clip and the target.
    pub open spec fn fill_area(&self, x: i32, y: i32, width: i32, height: i32) -> Rect {
        intersect_spec(
            intersect_spec(
                Rect {
                    x: wrapping(x + self.state().translate_x),
                    y: wrapping(y + self.state().translate_y),
                    width,
                    height,
                },
                self.state().clip,
            ),
            full_bounds_of(self.target_image()@),
        )
    }

    /// `fillRect`: paints every cell of [`fill_area`](Self::fill_area) with
    /// the current colour.
    pub fn fill_rect(&mut self, x: i32, y: i32, width: i32, height: i32)
        requires
            old(self).wf(),
        ensures
            final(self).wf(),
            final(self).state() == old(self).state(),
            repainted(
                old(self).target_image()@,
                final(self).target_image()@,
                area_paint(
                    old(self).fill_area(x, y, width, height),
                    |a: int, b: int| true,
                    |a: int, b: int| old(self).state().color,
                ),
            ),
    {
        let requested = Rect {
            x: crate::jvm::i32_add(x, self.translate_x),
            y: crate::jvm::i32_add(y, self.translate_y),
            width,
            height,
        };
        let bounds = self.full_bounds();
        let area = requested.intersect(self.clip).intersect(bounds);
        let ghost before = (*self.target)@;
        let color = self.color;
        let ghost covered = |a: int, b: int| true;
        let ghost value = |a: int, b: int| color;
        proof {
            lemma_repainted_nothing(before);
            lemma_repaint_congruent(before, before, no_paint(), scan_paint(area, area.y as int, area.x as int, covered, value));
        }
        let end_y: i64 = area.y as i64 + area.height as i64;
        let end_x: i64 = area.x as i64 + area.width as i64;
        let mut ty: i32 = area.y;
        while (ty as i64) < end_y
            invariant
                area.y <= ty,
                area.height > 0 ==> ty <= end_y,
                area.height == 0 ==> ty == area.y,
                end_y == area.y + area.height,
                end_x == area.x + area.width,
                area.height > 0 ==> end_y <= before.height,
                area.width > 0 ==> end_x <= before.width,
                area.x >= 0 && area.y >= 0 && area.width >= 0 && area.height >= 0,
                before == old(self).target_image()@,
                before.width > 0 && before.height > 0 && before.pixels.len() == before.width * before.height,
                before.width <= i32::MAX && before.height <= i32::MAX,
                (*self.target).wf(),
                self.state() == old(self).state(),
                color == self.color,
                forall|a: int, b: int| #[trigger] covered(a, b),
                forall|a: int, b: int| #[trigger] value(a, b) == color,
                repainted(before, (*self.target)@, scan_paint(area, ty as int, area.x as int, covered, value)),
            decreases end_y - ty,
        {
            let mut tx: i32 = area.x;
            while (tx as i64) < end_x
                invariant
                    area.x <= tx,
                    tx <= end_x,
                    area.y <= ty < end_y,
                    end_y == area.y + area.height,
                    end_x == area.x + area.width,
                    end_y <= before.height,
                    area.width > 0 ==> end_x <= before.width,
                    area.x >= 0 && area.y >= 0 && area.width >= 0 && area.height >= 0,
                    before == old(self).target_image()@,
                    before.width > 0 && before.height > 0 && before.pixels.len() == before.width * before.height,
                    before.width <= i32::MAX && before.height <= i32::MAX,
                    (*self.target).wf(),
                    self.state() == old(self).state(),
                    color == self.color,
                    forall|a: int, b: int| #[trigger] covered(a, b),
                    forall|a: int, b: int| #[trigger] value(a, b) == color,
                    repainted(before, (*self.target)@, scan_paint(area, ty as int, tx as int, covered, value)),
                decreases end_x - tx,
            {
                let ghost current = (*self.target)@;
                self.target.set(tx, ty, color);
                proof {
                    assert(covered(tx as int, ty as int));
                    assert(value(tx as int, ty as int) == color);
                    assert(rect_contains(area, tx as int, ty as int));
                    lemma_repaint_step(
                        before,
                        current,
                        (*self.target)@,
                        scan_paint(area, ty as int, tx as int, covered, value),
                        scan_paint(area, ty as int, tx + 1, covered, value),
                        tx as int,
                        ty as int,
                        color,
                    );
                }
                tx = tx + 1;
            }
            proof {
                lemma_repaint_congruent(
                    before,
                    (*self.target)@,
                    scan_paint(area, ty as int, tx as int, covered, value),
                    scan_paint(area, ty + 1, area.x as int, covered, value),
                );
            }
            ty = ty + 1;
        }
        proof {
            lemma_repaint_congruent(
                before,
                (*self.target)@,
                scan_paint(area, ty as int, area.x as int, covered, value),
                area_paint(area, covered, value),
            );
        }
    }


    /// The target cells a `fillTriangle` scans: the vertices' bounding box cut
    /// to the clip and the target, so hostile coordinates cannot create an
    /// unbounded loop.
    pub open spec fn triangle_area(&self, v: (i32, i32, i32, i32, i32, i32)) -> Rect {
        let (x1, y1, x2, y2, x3, y3) = v;
        let min_x = min_int(min_int(x1 as int, x2 as int), x3 as int);
        let max_x = max_int(max_int(x1 as int, x2 as int), x3 as int);
        let min_y = min_int(min_int(y1 as int, y2 as int), y3 as int);
        let max_y = max_int(max_int(y1 as int, y2 as int), y3 as int);
        intersect_spec(
            intersect_spec(
                Rect {
                    x: min_x as i32,
                    y: min_y as i32,
                    width: span_of(min_x, max_x) as i32,
                    height: span_of(min_y, max_y) as i32,
                },
                self.state().clip,
            ),
            full_bounds_of(self.target_image()@),
        )
    }

    /// The translated vertices of a triangle.
    pub open spec fn translated(&self, x1: i32, y1: i32, x2: i32, y2: i32, x3: i32, y3: i32) -> (
        i32,
        i32,
        i32,
        i32,
        i32,
        i32,
    ) {
        (
            wrapping(x1 + self.state().translate_x),
            wrapping(y1 + self.state().translate_y),
            wrapping(x2 + self.state().translate_x),
            wrapping(y2 + self.state().translate_y),
            wrapping(x3 + self.state().translate_x),
            wrapping(y3 + self.state().translate_y),
        )
    }

    /// `Graphics.fillTriangle`: fills the closed triangle, testing pixel
    /// centres on doubled integer coordinates.
    pub fn fill_triangle(&mut self, x1: i32, y1: i32, x2: i32, y2: i32, x3: i32, y3: i32)
        requires
            old(self).wf(),
        ensures
            final(self).wf(),
            final(self).state() == old(self).state(),
            ({
                let v = old(self).translated(x1, y1, x2, y2, x3, y3);
                repainted(
                    old(self).target_image()@,
                    final(self).target_image()@,
                    area_paint(
                        old(self).triangle_area(v),
                        |a: int, b: int| triangle_covers(v.0 as int, v.1 as int, v.2 as int, v.3 as int, v.4 as int, v.5 as int, a, b),
                        |a: int, b: int| old(self).state().color,
                    ),
                )
            }),
    {
        let ax = crate::jvm::i32_add(x1, self.translate_x);
        let ay = crate::jvm::i32_add(y1, self.translate_y);
        let bx = crate::jvm::i32_add(x2, self.translate_x);
        let by = crate::jvm::i32_add(y2, self.translate_y);
        let cx = crate::jvm::i32_add(x3, self.translate_x);
        let cy = crate::jvm::i32_add(y3, self.translate_y);
        let min_x = min3(ax, bx, cx);
        let max_x = max3(ax, bx, cx);
        let min_y = min3(ay, by, cy);
        let max_y = max3(ay, by, cy);
        let boxed = Rect { x: min_x, y: min_y, width: span(min_x, max_x), height: span(min_y, max_y) };
        let bounds = self.full_bounds();
        let area = boxed.intersect(self.clip).intersect(bounds);
        let ghost before = (*self.target)@;
        let color = self.color;
        let ghost covered = |a: int, b: int| triangle_covers(ax as int, ay as int, bx as int, by as int, cx as int, cy as int, a, b);
        let ghost value = |a: int, b: int| color;
        proof {
            lemma_repainted_nothing(before);
            lemma_repaint_congruent(before, before, no_paint(), scan_paint(area, area.y as int, area.x as int, covered, value));
        }
        let end_y: i64 = area.y as i64 + area.height as i64;
        let end_x: i64 = area.x as i64 + area.width as i64;
        let mut ty: i32 = area.y;
        while (ty as i64) < end_y
            invariant
                area.y <= ty,
                area.height > 0 ==> ty <= end_y,
                area.height == 0 ==> ty == area.y,
                end_y == area.y + area.height,
                end_x == area.x + area.width,
                area.height > 0 ==> end_y <= before.height,
                area.width > 0 ==> end_x <= before.width,
                area.x >= 0 && area.y >= 0 && area.width >= 0 && area.height >= 0,
                before == old(self).target_image()@,
                before.width > 0 && before.height > 0 && before.pixels.len() == before.width * before.height,
                before.width <= i32::MAX && before.height <= i32::MAX,
                (*self.target).wf(),
                self.state() == old(self).state(),
                color == self.color,
                forall|a: int, b: int| #[trigger] covered(a, b) == triangle_covers(ax as int, ay as int, bx as int, by as int, cx as int, cy as int, a, b),
                forall|a: int, b: int| #[trigger] value(a, b) == color,
                repainted(before, (*self.target)@, scan_paint(area, ty as int, area.x as int, covered, value)),
            decreases end_y - ty,
        {
            let mut tx: i32 = area.x;
            while (tx as i64) < end_x
                invariant
                    area.x <= tx,
                    tx <= end_x,
                    area.y <= ty < end_y,
                    end_y == area.y + area.height,
                    end_x == area.x + area.width,
                    end_y <= before.height,
                    area.width > 0 ==> end_x <= before.width,
                    area.x >= 0 && area.y >= 0 && area.width >= 0 && area.height >= 0,
                    before == old(self).target_image()@,
                    before.width > 0 && before.height > 0 && before.pixels.len() == before.width * before.height,
                    before.width <= i32::MAX && before.height <= i32::MAX,
                    (*self.target).wf(),
                    self.state() == old(self).state(),
                    color == self.color,
                    forall|a: int, b: int| #[trigger] covered(a, b) == triangle_covers(ax as int, ay as int, bx as int, by as int, cx as int, cy as int, a, b),
                    forall|a: int, b: int| #[trigger] value(a, b) == color,
                    repainted(before, (*self.target)@, scan_paint(area, ty as int, tx as int, covered, value)),
                decreases end_x - tx,
            {
                let ghost current = (*self.target)@;
                if covers(ax, ay, bx, by, cx, cy, tx, ty) {
                    self.target.set(tx, ty, color);
                    proof {
                        assert(covered(tx as int, ty as int));
                        assert(value(tx as int, ty as int) == color);
                        assert(rect_contains(area, tx as int, ty as int));
                        lemma_repaint_step(
                            before,
                            current,
                            (*self.target)@,
                            scan_paint(area, ty as int, tx as int, covered, value),
                            scan_paint(area, ty as int, tx + 1, covered, value),
                            tx as int,
                            ty as int,
                            color,
                        );
                    }
                } else {
                    proof {
                        assert(!covered(tx as int, ty as int));
                        lemma_repaint_congruent(
                            before,
                            (*self.target)@,
                            scan_paint(area, ty as int, tx as int, covered, value),
                            scan_paint(area, ty as int, tx + 1, covered, value),
                        );
                    }
                }
                tx = tx + 1;
            }
            proof {
                lemma_repaint_congruent(
                    before,
                    (*self.target)@,
                    scan_paint(area, ty as int, tx as int, covered, value),
                    scan_paint(area, ty + 1, area.x as int, covered, value),
                );
            }
            ty = ty + 1;
        }
        proof {
            lemma_repaint_congruent(
                before,
                (*self.target)@,
                scan_paint(area, ty as int, area.x as int, covered, value),
                area_paint(area, covered, value),
            );
        }
    }


    /// What `drawRegion` does on success: the output's top-left corner in
    /// target coordinates.
    pub open spec fn region_corner(&self, corner: (i32, i32)) -> (i32, i32) {
        (wrapping(corner.0 + self.state().translate_x), wrapping(corner.1 + self.state().translate_y))
    }

    /// `drawImage(image, x, y, anchor)`: the whole image, untransformed.
    pub fn draw_image(&mut self, source: &Image, x: i32, y: i32, anchor: i32) -> (r: Result<(), GraphicsError>)
        requires
            old(self).wf(),
            source.wf(),
        ensures
            final(self).wf(),
            final(self).state() == old(self).state(),
            ({
                let region = Rect { x: 0, y: 0, width: source@.width as i32, height: source@.height as i32 };
                Self::drew_region(*old(self), *final(self), source@, region, SpriteTransform::Identity, x, y, anchor, r)
            }),
    {
        let region = Rect { x: 0, y: 0, width: source.width(), height: source.height() };
        self.draw_region(source, region, SpriteTransform::Identity, x, y, anchor)
    }

    /// `drawRegion` with the transform given as its MIDP number.
    pub fn draw_region_raw(
        &mut self,
        source: &Image,
        source_x: i32,
        source_y: i32,
        width: i32,
        height: i32,
        transform: i32,
        destination_x: i32,
        destination_y: i32,
        anchor: i32,
    ) -> (r: Result<(), GraphicsError>)
        requires
            old(self).wf(),
            source.wf(),
        ensures
            final(self).wf(),
            final(self).state() == old(self).state(),
            ({
                let region = Rect { x: source_x, y: source_y, width, height };
                match transform_of(transform) {
                    None => r == Err::<(), GraphicsError>(GraphicsError::InvalidTransform(transform))
                        && final(self).target_image() == old(self).target_image(),
                    Some(t) => Self::drew_region(
                        *old(self),
                        *final(self),
                        source@,
                        region,
                        t,
                        destination_x,
                        destination_y,
                        anchor,
                        r,
                    ),
                }
            }),
    {
        let t = match SpriteTransform::from_code(transform) {
            Ok(t) => t,
            Err(e) => return Err(e),
        };
        self.draw_region(
            source,
            Rect { x: source_x, y: source_y, width, height },
            t,
            destination_x,
            destination_y,
            anchor,
        )
    }

    /// The outcome of a region blit: `InvalidSourceRegion` for a region that
    /// is empty or leaves the source, the anchor's error, or every clipped
    /// output pixel composited from its source cell.
    pub open spec fn drew_region(
        before: Self,
        after: Self,
        source: ImageView,
        region: Rect,
        t: SpriteTransform,
        destination_x: i32,
        destination_y: i32,
        anchor: i32,
        r: Result<(), GraphicsError>,
    ) -> bool {
        if !region_ok(source, region) {
            r == Err::<(), GraphicsError>(GraphicsError::InvalidSourceRegion) && after.target_image()
                == before.target_image()
        } else {
            let (ow, oh) = output_size_spec(t, region.width as int, region.height as int);
            match anchor_spec(destination_x, destination_y, ow as i32, oh as i32, anchor) {
                Err(e) => r == Err::<(), GraphicsError>(e) && after.target_image() == before.target_image(),
                Ok(corner) => {
                    let (left, top) = before.region_corner(corner);
                    &&& r is Ok
                    &&& repainted(
                        before.target_image()@,
                        after.target_image()@,
                        region_paint(
                            source,
                            before.target_image()@,
                            t,
                            region,
                            left,
                            top,
                            before.state().clip,
                            every_cell(),
                        ),
                    )
                },
            }
        }
    }

    fn draw_region(
        &mut self,
        source: &Image,
        region: Rect,
        transform: SpriteTransform,
        destination_x: i32,
        destination_y: i32,
        anchor: i32,
    ) -> (r: Result<(), GraphicsError>)
        requires
            old(self).wf(),
            source.wf(),
        ensures
            final(self).wf(),
            final(self).state() == old(self).state(),
            Self::drew_region(*old(self), *final(self), source@, region, transform, destination_x, destination_y, anchor, r),
    {
        let source_width = source.width();
        let source_height = source.height();
        if region.width <= 0 || region.height <= 0 || region.x < 0 || region.y < 0 || region.x as i64
            + region.width as i64 > source_width as i64 || region.y as i64 + region.height as i64
            > source_height as i64 {
            return Err(GraphicsError::InvalidSourceRegion);
        }
        let (output_width, output_height) = transform.output_size(region.width, region.height);
        let corner = match anchor_top_left(destination_x, destination_y, output_width, output_height, anchor) {
            Ok(corner) => corner,
            Err(e) => return Err(e),
        };
        let left = crate::jvm::i32_add(corner.0, self.translate_x);
        let top = crate::jvm::i32_add(corner.1, self.translate_y);
        let ghost before = (*self.target)@;
        let ghost src = source@;
        let clip = self.clip;
        proof {
            lemma_repainted_nothing(before);
            lemma_repaint_congruent(
                before,
                before,
                no_paint(),
                region_paint(src, before, transform, region, left, top, clip, before_cell(0, 0)),
            );
        }
        let mut source_y: i32 = 0;
        while source_y < region.height
            invariant
                0 <= source_y <= region.height,
                region_ok(src, region),
                src == source@,
                source.wf(),
                before == old(self).target_image()@,
                before.width > 0 && before.height > 0 && before.pixels.len() == before.width * before.height,
                before.width <= i32::MAX && before.height <= i32::MAX,
                (*self.target).wf(),
                self.state() == old(self).state(),
                clip == self.clip,
                self.wf(),
                repainted(
                    before,
                    (*self.target)@,
                    region_paint(src, before, transform, region, left, top, clip, before_cell(source_y as int, 0)),
                ),
            decreases region.height - source_y,
        {
            let mut source_x: i32 = 0;
            while source_x < region.width
                invariant
                    0 <= source_x <= region.width,
                    0 <= source_y < region.height,
                    region_ok(src, region),
                    src == source@,
                    source.wf(),
                    before == old(self).target_image()@,
                    before.width > 0 && before.height > 0 && before.pixels.len() == before.width * before.height,
                    before.width <= i32::MAX && before.height <= i32::MAX,
                    (*self.target).wf(),
                    self.state() == old(self).state(),
                    clip == self.clip,
                    self.wf(),
                    repainted(
                        before,
                        (*self.target)@,
                        region_paint(
                            src,
                            before,
                            transform,
                            region,
                            left,
                            top,
                            clip,
                            before_cell(source_y as int, source_x as int),
                        ),
                    ),
                decreases region.width - source_x,
            {
                let ghost current = (*self.target)@;
                let ghost paint = region_paint(
                    src,
                    before,
                    transform,
                    region,
                    left,
                    top,
                    clip,
                    before_cell(source_y as int, source_x as int),
                );
                let ghost next = region_paint(
                    src,
                    before,
                    transform,
                    region,
                    left,
                    top,
                    clip,
                    before_cell(source_y as int, source_x + 1),
                );
                let (offset_x, offset_y) = transform.destination(source_x, source_y, region.width, region.height);
                let target_x = crate::jvm::i32_add(left, offset_x);
                let target_y = crate::jvm::i32_add(top, offset_y);
                proof {
                    lemma_transform_bijective(transform, source_x as int, source_y as int, region.width as int, region.height as int);
                    assert forall|a: int, b: int| (a != target_x || b != target_y) && in_bounds(before.width, before.height, a, b)
                        implies #[trigger] next(a, b) == paint(a, b) by {
                        match region_origin(transform, region, left, top, a, b) {
                            Some((sx, sy)) => {
                                if sx == source_x && sy == source_y {
                                    let (ow, oh) = output_size_spec(transform, region.width as int, region.height as int);
                                    let ox = crate::jvm::wrap_i32(a - left);
                                    let oy = crate::jvm::wrap_i32(b - top);
                                    lemma_transform_origin(transform, ox, oy, region.width as int, region.height as int);
                                    lemma_wrap_offset(left, ox, a);
                                    lemma_wrap_offset(top, oy, b);
                                }
                            },
                            None => {},
                        }
                    }
                }
                if clip.contains(target_x, target_y) {
                    let pixel = source.get(region.x + source_x, region.y + source_y);
                    proof {
                        lemma_wrap_offset(left, offset_x as int, target_x as int);
                        lemma_wrap_offset(top, offset_y as int, target_y as int);
                        assert(in_bounds(before.width, before.height, target_x as int, target_y as int));
                        assert(region_origin(transform, region, left, top, target_x as int, target_y as int) == Some(
                            (source_x as int, source_y as int),
                        ));
                        assert(paint(target_x as int, target_y as int) is None);
                        assert(current.pixels[pixel_index(before.width, target_x as int, target_y as int)]
                            == before.pixels[pixel_index(before.width, target_x as int, target_y as int)]);
                    }
                    match pixel {
                        Some(pixel) => {
                            self.target.blend(target_x, target_y, pixel);
                            proof {
                                lemma_repaint_step(
                                    before,
                                    current,
                                    (*self.target)@,
                                    paint,
                                    next,
                                    target_x as int,
                                    target_y as int,
                                    source_over_spec(
                                        pixel,
                                        before.pixels[pixel_index(before.width, target_x as int, target_y as int)],
                                    ),
                                );
                            }
                        },
                        None => {},
                    }
                } else {
                    proof {
                        assert forall|a: int, b: int| in_bounds(before.width, before.height, a, b) implies #[trigger] next(
                            a,
                            b,
                        ) == paint(a, b) by {
                            if a == target_x && b == target_y {
                                assert(!rect_contains(clip, a, b));
                            }
                        }
                        lemma_repaint_congruent(before, (*self.target)@, paint, next);
                    }
                }
                source_x = source_x + 1;
            }
            proof {
                lemma_repaint_congruent(
                    before,
                    (*self.target)@,
                    region_paint(src, before, transform, region, left, top, clip, before_cell(source_y as int, source_x as int)),
                    region_paint(src, before, transform, region, left, top, clip, before_cell(source_y + 1, 0)),
                );
            }
            source_y = source_y + 1;
        }
        proof {
            lemma_repaint_congruent(
                before,
                (*self.target)@,
                region_paint(src, before, transform, region, left, top, clip, before_cell(source_y as int, 0)),
                region_paint(src, before, transform, region, left, top, clip, every_cell()),
            );
        }
        Ok(())
    }


    /// `drawLine`: the clipped pixels of Bresenham's walk between the
    /// translated end points, both included.
    pub fn draw_line(&mut self, x1: i32, y1: i32, x2: i32, y2: i32)
        requires
            old(self).wf(),
        ensures
            final(self).wf(),
            final(self).state() == old(self).state(),
            repainted(old(self).target_image()@, final(self).target_image()@, old(self).user_line(x1, y1, x2, y2)),
    {
        let start_x = crate::jvm::i32_add(x1, self.translate_x);
        let start_y = crate::jvm::i32_add(y1, self.translate_y);
        let end_x32 = crate::jvm::i32_add(x2, self.translate_x);
        let end_y32 = crate::jvm::i32_add(y2, self.translate_y);
        let mut x: i64 = start_x as i64;
        let mut y: i64 = start_y as i64;
        let end_x: i64 = end_x32 as i64;
        let end_y: i64 = end_y32 as i64;
        let delta_x: i64 = if end_x - x >= 0 { end_x - x } else { x - end_x };
        let delta_y: i64 = if end_y - y >= 0 { -(end_y - y) } else { end_y - y };
        let step_x: i64 = if x < end_x { 1 } else { -1 };
        let step_y: i64 = if y < end_y { 1 } else { -1 };
        let mut error: i64 = delta_x + delta_y;
        let ghost x0 = start_x as int;
        let ghost y0 = start_y as int;
        let ghost a = delta_x as int;
        let ghost b = -delta_y;
        let ghost before = (*self.target)@;
        let ghost mut k: nat = 0;
        let ghost mut i: int = 0;
        let ghost mut j: int = 0;
        let clip = self.clip;
        let color = self.color;
        proof {
            lemma_repainted_nothing(before);
            lemma_repaint_congruent(
                before,
                before,
                no_paint(),
                line_paint(x0, y0, end_x as int, end_y as int, 0, clip, color),
            );
        }
        loop
            invariant_except_break
                repainted(
                    before,
                    (*self.target)@,
                    line_paint(x0, y0, end_x as int, end_y as int, k as int, clip, color),
                ),
            invariant
                before == old(self).target_image()@,
                before.width > 0 && before.height > 0 && before.pixels.len() == before.width * before.height,
                before.width <= i32::MAX && before.height <= i32::MAX,
                (*self.target).wf(),
                self.state() == old(self).state(),
                self.wf(),
                clip == self.clip,
                color == self.color,
                x0 == start_x && y0 == start_y,
                a == abs_int(end_x - x0) && b == abs_int(end_y - y0),
                delta_x == a && delta_y == -b,
                step_x == (if x0 < end_x { 1int } else { -1int }),
                step_y == (if y0 < end_y { 1int } else { -1int }),
                0 <= i <= a,
                0 <= j <= b,
                i + j >= k,
                x == (if step_x == 1 { x0 + i } else { x0 - i }),
                y == (if step_y == 1 { y0 + j } else { y0 - j }),
                error == a * (1 + j) - b * (1 + i),
                -2 * b <= error <= 2 * a,
                i32::MIN <= end_x <= i32::MAX && i32::MIN <= end_y <= i32::MAX,
                line_state(x0, y0, end_x as int, end_y as int, k) == (x as int, y as int, error as int),
            ensures
                repainted(
                    before,
                    (*self.target)@,
                    line_paint(x0, y0, end_x as int, end_y as int, a + b + 1, clip, color),
                ),
            decreases (a - i) + (b - j),
        {
            let ghost current = (*self.target)@;
            assert(i32::MIN <= x <= i32::MAX && i32::MIN <= y <= i32::MAX);
            let target_x = x as i32;
            let target_y = y as i32;
            let ghost paint = line_paint(x0, y0, end_x as int, end_y as int, k as int, clip, color);
            let ghost next = line_paint(x0, y0, end_x as int, end_y as int, k + 1int, clip, color);
            proof {
                assert forall|p: int, q: int| (p != target_x || q != target_y) implies #[trigger] next(p, q) == paint(p, q) by {
                    if on_line_before(x0, y0, end_x as int, end_y as int, k + 1int, p, q) {
                        let w = choose|w: nat| w < k + 1 && #[trigger] line_state(x0, y0, end_x as int, end_y as int, w).0 == p
                            && line_state(x0, y0, end_x as int, end_y as int, w).1 == q;
                        assert(w != k);
                    }
                }
                assert(line_state(x0, y0, end_x as int, end_y as int, k).0 == target_x as int);
                assert(on_line_before(x0, y0, end_x as int, end_y as int, k + 1int, target_x as int, target_y as int));
            }
            if clip.contains(target_x, target_y) {
                self.target.set(target_x, target_y, color);
                proof {
                    lemma_repaint_step(before, current, (*self.target)@, paint, next, target_x as int, target_y as int, color);
                }
            } else {
                proof {
                    lemma_repaint_congruent(before, (*self.target)@, paint, next);
                }
            }
            if x == end_x && y == end_y {
                proof {
                    assert forall|p: int, q: int| in_bounds(before.width, before.height, p, q) implies #[trigger] line_paint(
                        x0,
                        y0,
                        end_x as int,
                        end_y as int,
                        a + b + 1,
                        clip,
                        color,
                    )(p, q) == next(p, q) by {
                        if on_line_before(x0, y0, end_x as int, end_y as int, a + b + 1, p, q) {
                            let w = choose|w: nat| w < a + b + 1 && #[trigger] line_state(x0, y0, end_x as int, end_y as int, w).0
                                == p && line_state(x0, y0, end_x as int, end_y as int, w).1 == q;
                            if w > k {
                                lemma_line_rests(x0, y0, end_x as int, end_y as int, k, w);
                            }
                        }
                    }
                    lemma_repaint_congruent(
                        before,
                        (*self.target)@,
                        next,
                        line_paint(x0, y0, end_x as int, end_y as int, a + b + 1, clip, color),
                    );
                }
                break;
            }
            let doubled = error * 2;
            proof {
                if i == a {
                    assert(j < b);
                    assert(a * j <= a * (b - 1)) by (nonlinear_arith)
                        requires
                            0 <= a,
                            j <= b - 1,
                    ;
                    assert(error == a * (1 + j) - b * (1 + a));
                    assert(a * (1 + j) == a + a * j) by (nonlinear_arith);
                    assert(b * (1 + a) == b + a * b) by (nonlinear_arith);
                    assert(a * (b - 1) == a * b - a) by (nonlinear_arith);
                }
                if j == b {
                    assert(i < a);
                    assert(b * i <= b * (a - 1)) by (nonlinear_arith)
                        requires
                            0 <= b,
                            i <= a - 1,
                    ;
                    assert(a * (1 + b) == a + a * b) by (nonlinear_arith);
                    assert(b * (1 + i) == b + b * i) by (nonlinear_arith);
                    assert(b * (a - 1) == a * b - b) by (nonlinear_arith);
                }
            }
            let ghost old_error = error as int;
            if doubled >= delta_y {
                error = error + delta_y;
                x = x + step_x;
                proof {
                    i = i + 1;
                    assert(b * (1 + i) == b * (1 + (i - 1)) + b) by (nonlinear_arith);
                }
            }
            if doubled <= delta_x {
                error = error + delta_x;
                y = y + step_y;
                proof {
                    j = j + 1;
                    assert(a * (1 + j) == a * (1 + (j - 1)) + a) by (nonlinear_arith);
                }
            }
            proof {
                k = k + 1;
            }
        }
    }


    /// The clipped pixels of the line between two user-space points.
    pub open spec fn user_line(&self, x1: i32, y1: i32, x2: i32, y2: i32) -> spec_fn(int, int) -> Option<u32> {
        let s = self.state();
        let ax = wrapping(x1 + s.translate_x) as int;
        let ay = wrapping(y1 + s.translate_y) as int;
        let bx = wrapping(x2 + s.translate_x) as int;
        let by = wrapping(y2 + s.translate_y) as int;
        line_paint(ax, ay, bx, by, abs_int(bx - ax) + abs_int(by - ay) + 1, s.clip, s.color)
    }

    /// `drawRect`: the outline through the four corners `(x, y)` and
    /// `(x + width, y + height)`, both included; nothing for a negative size.
    pub fn draw_rect(&mut self, x: i32, y: i32, width: i32, height: i32)
        requires
            old(self).wf(),
        ensures
            final(self).wf(),
            final(self).state() == old(self).state(),
            width < 0 || height < 0 ==> final(self).target_image() == old(self).target_image(),
            width >= 0 && height >= 0 ==> ({
                let right = wrapping(x + width);
                let bottom = wrapping(y + height);
                repainted(
                    old(self).target_image()@,
                    final(self).target_image()@,
                    overlay(
                        overlay(
                            overlay(old(self).user_line(x, y, right, y), old(self).user_line(x, bottom, right, bottom)),
                            old(self).user_line(x, y, x, bottom),
                        ),
                        old(self).user_line(right, y, right, bottom),
                    ),
                )
            }),
    {
        if width < 0 || height < 0 {
            return;
        }
        let right = crate::jvm::i32_add(x, width);
        let bottom = crate::jvm::i32_add(y, height);
        let ghost i0 = (*self.target)@;
        self.draw_line(x, y, right, y);
        let ghost i1 = (*self.target)@;
        self.draw_line(x, bottom, right, bottom);
        let ghost i2 = (*self.target)@;
        self.draw_line(x, y, x, bottom);
        let ghost i3 = (*self.target)@;
        self.draw_line(right, y, right, bottom);
        proof {
            let l1 = old(self).user_line(x, y, right, y);
            let l2 = old(self).user_line(x, bottom, right, bottom);
            let l3 = old(self).user_line(x, y, x, bottom);
            let l4 = old(self).user_line(right, y, right, bottom);
            lemma_repaint_compose(i0, i1, i2, l1, l2);
            lemma_repaint_compose(i0, i2, i3, overlay(l1, l2), l3);
            lemma_repaint_compose(i0, i3, (*self.target)@, overlay(overlay(l1, l2), l3), l4);
        }
    }

    /// Plot one pixel in user coordinates through the current translate and
    /// clip. `blend = true` alpha-composites (source-over) using the source
    /// pixel's own alpha; `false` writes it through unchanged. Vendor
    /// blitters build on this so they share the live clip and translation.
    pub fn plot(&mut self, x: i32, y: i32, argb: u32, blend: bool)
        requires
            old(self).wf(),
        ensures
            final(self).wf(),
            final(self).state() == old(self).state(),
            ({
                let before = old(self).target_image()@;
                let px = wrapping(x + old(self).state().translate_x) as int;
                let py = wrapping(y + old(self).state().translate_y) as int;
                repainted(
                    before,
                    final(self).target_image()@,
                    |a: int, b: int|
                        if a == px && b == py && rect_contains(old(self).state().clip, a, b) {
                            Some(
                                if blend {
                                    source_over_spec(argb, before.pixels[pixel_index(before.width, a, b)])
                                } else {
                                    argb
                                },
                            )
                        } else {
                            None
                        },
                )
            }),
    {
        let ghost before = (*self.target)@;
        let px = crate::jvm::i32_add(x, self.translate_x);
        let py = crate::jvm::i32_add(y, self.translate_y);
        let ghost paint = |a: int, b: int|
            if a == px && b == py && rect_contains(self.clip, a, b) {
                Some(
                    if blend {
                        source_over_spec(argb, before.pixels[pixel_index(before.width, a, b)])
                    } else {
                        argb
                    },
                )
            } else {
                None
            };
        if !self.clip.contains(px, py) {
            proof {
                lemma_repainted_nothing(before);
                assert(repainted(before, (*self.target)@, paint));
            }
            return;
        }
        if blend {
            self.target.blend(px, py, argb);
        } else {
            self.target.set(px, py, argb);
        }
        proof {
            lemma_repainted_nothing(before);
            lemma_repaint_step(before, before, (*self.target)@, no_paint(), paint, px as int, py as int, if blend {
                source_over_spec(argb, before.pixels[pixel_index(before.width, px as int, py as int)])
            } else {
                argb
            });
        }
    }

    /// Read one pixel in user coordinates through the current translate, or
    /// `None` outside the target bounds. Unlike [`plot`](Self::plot) it is
    /// deliberately not clipped: a raw target read.
    pub fn read(&self, x: i32, y: i32) -> (r: Option<u32>)
        requires
            self.wf(),
        ensures
            ({
                let image = self.target_image()@;
                let px = wrapping(x + self.state().translate_x) as int;
                let py = wrapping(y + self.state().translate_y) as int;
                &&& in_bounds(image.width, image.height, px, py) ==> r == Some(
                    image.pixels[pixel_index(image.width, px, py)],
                )
                &&& !in_bounds(image.width, image.height, px, py) ==> r is None
            }),
    {
        self.target.get(crate::jvm::i32_add(x, self.translate_x), crate::jvm::i32_add(y, self.translate_y))
    }
}


/// The MIDP `Sprite.TRANS_*` numbers move source pixel `(x, y)` of a region
/// `w` wide and `h` high as MIDP defines them: `TRANS_NONE` (0) keeps it,
/// `TRANS_MIRROR_ROT180` (1) flips top to bottom, `TRANS_MIRROR` (2) flips
/// left to right, `TRANS_ROT180` (3) turns it half round,
/// `TRANS_MIRROR_ROT270` (4) transposes, `TRANS_ROT90` (5) and
/// `TRANS_ROT270` (6) turn it a quarter clockwise and anticlockwise, and
/// `TRANS_MIRROR_ROT90` (7) transposes across the other diagonal. No other
/// number is a transform.
pub proof fn lemma_midp_transform_numbers(x: int, y: int, w: int, h: int)
    ensures
        transform_of(0) matches Some(t) && destination_spec(t, x, y, w, h) == (x, y),
        transform_of(1) matches Some(t) && destination_spec(t, x, y, w, h) == (x, h - 1 - y),
        transform_of(2) matches Some(t) && destination_spec(t, x, y, w, h) == (w - 1 - x, y),
        transform_of(3) matches Some(t) && destination_spec(t, x, y, w, h) == (w - 1 - x, h - 1 - y),
        transform_of(4) matches Some(t) && destination_spec(t, x, y, w, h) == (y, x),
        transform_of(5) matches Some(t) && destination_spec(t, x, y, w, h) == (h - 1 - y, x),
        transform_of(6) matches Some(t) && destination_spec(t, x, y, w, h) == (y, w - 1 - x),
        transform_of(7) matches Some(t) && destination_spec(t, x, y, w, h) == (h - 1 - y, w - 1 - x),
        forall|v: i32| (v < 0 || v > 7) ==> #[trigger] transform_of(v) is None,
{
}

/// Each mirrored MIDP transform is its rotation applied after a left-right
/// flip of the region: 2 after 0, 7 after 5, 1 after 3 and 4 after 6.
pub proof fn lemma_mirrors_flip_then_rotate(x: int, y: int, w: int, h: int)
    ensures
        destination_spec(transform_of(2)->0, x, y, w, h) == destination_spec(transform_of(0)->0, w - 1 - x, y, w, h),
        destination_spec(transform_of(7)->0, x, y, w, h) == destination_spec(transform_of(5)->0, w - 1 - x, y, w, h),
        destination_spec(transform_of(1)->0, x, y, w, h) == destination_spec(transform_of(3)->0, w - 1 - x, y, w, h),
        destination_spec(transform_of(4)->0, x, y, w, h) == destination_spec(transform_of(6)->0, w - 1 - x, y, w, h),
{
}

} // verus!
