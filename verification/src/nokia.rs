//! `com.nokia.mid.ui.DirectGraphics` / `DirectUtils` — the Nokia UI vendor
//! blitter, an opt-in extension over the MIDP [`Graphics`].
//!
//! It wraps a live [`Graphics`] via [`get_direct_graphics`], sharing that
//! context's current translate and clip through its
//! [`plot`](Graphics::plot) / [`read`](Graphics::read) primitives, so a
//! `setClip` on the `Graphics` after `getDirectGraphics` is honored, exactly as
//! on a handset.
//!
//! The pixel-format conversions are the contract. 4444→8888 replicates each
//! 4-bit nibble into both halves of the 8-bit channel (`n * 0x11`, so `0xF →
//! 0xFF`); 8888→4444 truncates to the high nibble (`c >> 4`). This pair is exact
//! on a round trip, which the sprite-bake pattern (decode PNG → mutable buffer →
//! `getPixels` back as `short[]` 4444) relies on: quantization happens once and
//! the baked sprite then redraws bit-stably every frame.
//!
//! Only the formats and manipulations implemented here are accepted — pixel
//! formats {`TYPE_USHORT_4444_ARGB`, `TYPE_INT_8888_ARGB`} and manipulations
//! {`0`, `FLIP_HORIZONTAL`}. The other Nokia formats and manipulations are
//! rejected with a typed error rather than silently misinterpreted.
//!
//! Array indexing follows Java: `drawPixels`/`getPixels` are unguarded in the
//! typical caller, so every index they touch must lie inside the array.

use vstd::prelude::*;
use crate::canvas::{in_bounds, pixel_index, source_over_spec, Image, ImageView};
use crate::jvm::{wrap_i32, JavaError};
use crate::me::graphics::{
    anchor_spec, anchor_top_left, before_cell, every_cell, lemma_repaint_compose, lemma_repaint_congruent,
    lemma_wrap_offset, overlay, rect_contains, repainted, wrapping, Graphics, GraphicsState,
};

verus! {

/// `DirectGraphics.TYPE_USHORT_4444_ARGB` — 16-bit `short[]` pixels.
pub const TYPE_USHORT_4444_ARGB: i32 = 4444;
/// `DirectGraphics.TYPE_INT_8888_ARGB` — 32-bit `int[]` pixels.
pub const TYPE_INT_8888_ARGB: i32 = 8888;
/// `DirectGraphics.FLIP_HORIZONTAL` — mirror left↔right.
pub const FLIP_HORIZONTAL: i32 = 8192;

/// The pixel formats implemented here.
#[derive(Debug, Clone, Copy, PartialEq, Eq, Structural)]
pub enum PixelFormat {
    Ushort4444Argb,
    Int8888Argb,
}

impl PixelFormat {
    /// Resolve a raw Nokia format constant, rejecting everything outside the
    /// implemented set so a misread format can never be silently misinterpreted.
    pub fn from_raw(value: i32) -> (r: Result<Self, JavaError>)
        ensures
            value == TYPE_USHORT_4444_ARGB ==> r == Ok::<PixelFormat, JavaError>(PixelFormat::Ushort4444Argb),
            value == TYPE_INT_8888_ARGB ==> r == Ok::<PixelFormat, JavaError>(PixelFormat::Int8888Argb),
            value != TYPE_USHORT_4444_ARGB && value != TYPE_INT_8888_ARGB ==> r == Err::<PixelFormat, JavaError>(
                JavaError::IllegalArgument("DirectGraphics pixel format not implemented (only 4444 and 8888)"),
            ),
    {
        if value == TYPE_USHORT_4444_ARGB {
            Ok(PixelFormat::Ushort4444Argb)
        } else if value == TYPE_INT_8888_ARGB {
            Ok(PixelFormat::Int8888Argb)
        } else {
            Err(JavaError::IllegalArgument("DirectGraphics pixel format not implemented (only 4444 and 8888)"))
        }
    }
}

/// The manipulations implemented here.
#[derive(Debug, Clone, Copy, PartialEq, Eq, Structural)]
pub enum Manipulation {
    /// Manipulation `0`: draw as stored.
    Unchanged,
    FlipHorizontal,
}

/// The manipulation a raw argument names, if implemented.
pub open spec fn manipulation_of(value: i32) -> Option<Manipulation> {
    if value == 0 {
        Some(Manipulation::Unchanged)
    } else if value == FLIP_HORIZONTAL {
        Some(Manipulation::FlipHorizontal)
    } else {
        None
    }
}

pub open spec fn manipulation_error() -> JavaError {
    JavaError::IllegalArgument("DirectGraphics manipulation not implemented (only 0 and FLIP_HORIZONTAL)")
}

impl Manipulation {
    /// Resolve the raw manipulation argument; rotations and vertical flips are
    /// not implemented and are rejected.
    pub fn from_raw(value: i32) -> (r: Result<Self, JavaError>)
        ensures
            match manipulation_of(value) {
                Some(m) => r == Ok::<Manipulation, JavaError>(m),
                None => r == Err::<Manipulation, JavaError>(manipulation_error()),
            },
    {
        if value == 0 {
            Ok(Manipulation::Unchanged)
        } else if value == FLIP_HORIZONTAL {
            Ok(Manipulation::FlipHorizontal)
        } else {
            Err(JavaError::IllegalArgument("DirectGraphics manipulation not implemented (only 0 and FLIP_HORIZONTAL)"))
        }
    }

    fn flips_horizontally(self) -> (r: bool)
        ensures
            r == (self == Manipulation::FlipHorizontal),
    {
        self == Manipulation::FlipHorizontal
    }
}

/// Expansion of one ARGB4444 pixel: each nibble `n` becomes `n * 0x11`.
pub open spec fn expand_4444(p: u16) -> u32 {
    let a = ((p >> 12u16) & 0xf) as u32;
    let r = ((p >> 8u16) & 0xf) as u32;
    let g = ((p >> 4u16) & 0xf) as u32;
    let b = (p & 0xf) as u32;
    ((a * 0x11) * 0x100_0000 + (r * 0x11) * 0x1_0000 + (g * 0x11) * 0x100 + b * 0x11) as u32
}

/// Quantization of one `0xAARRGGBB` pixel: each channel's high nibble.
pub open spec fn quantize_8888(p: u32) -> u16 {
    let a = (p >> 28u32) & 0xf;
    let r = (p >> 20u32) & 0xf;
    let g = (p >> 12u32) & 0xf;
    let b = (p >> 4u32) & 0xf;
    (a * 0x1000 + r * 0x100 + g * 0x10 + b) as u16
}

/// Expand one ARGB4444 pixel (Java `short` bit pattern) to `0xAARRGGBB`: each
/// nibble `n` becomes `n * 0x11` (both halves replicated, so `0xF → 0xFF`).
pub fn argb4444_to_argb8888(p: i16) -> (r: u32)
    ensures
        r == expand_4444(p as u16),
{
    let p = p as u16;
    let a = ((p >> 12) & 0xf) as u32;
    let r = ((p >> 8) & 0xf) as u32;
    let g = ((p >> 4) & 0xf) as u32;
    let b = (p & 0xf) as u32;
    assert(a <= 15 && r <= 15 && g <= 15 && b <= 15) by (bit_vector)
        requires
            a == ((p >> 12u16) & 0xf) as u32,
            r == ((p >> 8u16) & 0xf) as u32,
            g == ((p >> 4u16) & 0xf) as u32,
            b == (p & 0xf) as u32,
    ;
    (a * 0x11) * 0x100_0000 + (r * 0x11) * 0x1_0000 + (g * 0x11) * 0x100 + b * 0x11
}

/// Quantize one `0xAARRGGBB` pixel to ARGB4444 (Java `short` bit pattern): each
/// channel truncates to its high nibble (`c >> 4`).
pub fn argb8888_to_argb4444(p: u32) -> (r: i16)
    ensures
        r as u16 == quantize_8888(p),
        r == quantize_8888(p) as i16,
{
    let a = (p >> 28) & 0xf;
    let r = (p >> 20) & 0xf;
    let g = (p >> 12) & 0xf;
    let b = (p >> 4) & 0xf;
    assert(a <= 15 && r <= 15 && g <= 15 && b <= 15) by (bit_vector)
        requires
            a == (p >> 28u32) & 0xf,
            r == (p >> 20u32) & 0xf,
            g == (p >> 12u32) & 0xf,
            b == (p >> 4u32) & 0xf,
    ;
    let v: u16 = (a * 0x1000 + r * 0x100 + g * 0x10 + b) as u16;
    assert((v as i16) as u16 == v) by (bit_vector);
    v as i16
}

/// The bake round trip is bit-stable: quantizing an expanded 4444 pixel gives
/// back exactly that pixel.
pub proof fn lemma_4444_round_trip(p: u16)
    ensures
        quantize_8888(expand_4444(p)) == p,
{
    let a = ((p >> 12u16) & 0xf) as u32;
    let r = ((p >> 8u16) & 0xf) as u32;
    let g = ((p >> 4u16) & 0xf) as u32;
    let b = (p & 0xf) as u32;
    let e = (a * 0x11) * 0x100_0000 + (r * 0x11) * 0x1_0000 + (g * 0x11) * 0x100 + b * 0x11;
    assert(a <= 15 && r <= 15 && g <= 15 && b <= 15) by (bit_vector)
        requires
            a == ((p >> 12u16) & 0xf) as u32,
            r == ((p >> 8u16) & 0xf) as u32,
            g == ((p >> 4u16) & 0xf) as u32,
            b == (p & 0xf) as u32,
    ;
    assert(p == a * 0x1000 + r * 0x100 + g * 0x10 + b) by (bit_vector)
        requires
            a == ((p >> 12u16) & 0xf) as u32,
            r == ((p >> 8u16) & 0xf) as u32,
            g == ((p >> 4u16) & 0xf) as u32,
            b == (p & 0xf) as u32,
    ;
    let e32: u32 = e as u32;
    assert((e32 >> 28u32) & 0xf == a && (e32 >> 20u32) & 0xf == r && (e32 >> 12u32) & 0xf == g && (e32 >> 4u32)
        & 0xf == b) by (bit_vector)
        requires
            a <= 15,
            r <= 15,
            g <= 15,
            b <= 15,
            e32 == (a * 0x11) * 0x100_0000 + (r * 0x11) * 0x1_0000 + (g * 0x11) * 0x100 + b * 0x11,
    ;
}

/// `DirectUtils.getDirectGraphics(Graphics)` — the Nokia view over an existing
/// [`Graphics`], sharing its live translate, clip, and target.
pub fn get_direct_graphics<'g, 'a>(g: &'g mut Graphics<'a>) -> (r: DirectGraphics<'g, 'a>)
    ensures
        r.graphics() == *old(g),
{
    DirectGraphics { g }
}

/// The Nokia `DirectGraphics` interface over one wrapped [`Graphics`].
pub struct DirectGraphics<'g, 'a> {
    g: &'g mut Graphics<'a>,
}

/// A box blit: target pixel `(a, b)` shows source cell `(col, row)` of the
/// `width` by `height` box at user `(x, y)` when it lies in the clip and the
/// cell is one that `done` selects; `transparency` composites, otherwise the
/// pixel is drawn opaque.
pub open spec fn box_paint(
    state: GraphicsState,
    before: ImageView,
    x: i32,
    y: i32,
    width: int,
    height: int,
    source: Seq<u32>,
    transparency: bool,
    done: spec_fn(int, int) -> bool,
) -> spec_fn(int, int) -> Option<u32> {
    |a: int, b: int|
        {
            let col = wrap_i32(a - state.translate_x) - x;
            let row = wrap_i32(b - state.translate_y) - y;
            if 0 <= col < width && 0 <= row < height && rect_contains(state.clip, a, b) && done(col, row) {
                let p = source[row * width + col];
                Some(
                    if transparency {
                        source_over_spec(p, before.pixels[pixel_index(before.width, a, b)])
                    } else {
                        p | 0xff00_0000u32
                    },
                )
            } else {
                None
            }
        }
}

/// Whether a `width` by `height` box at `(x, y)` stays inside Java `int`
/// coordinates.
pub open spec fn box_fits(x: i32, y: i32, width: i32, height: i32) -> bool {
    width > 0 && height > 0 ==> x + width - 1 <= i32::MAX && y + height - 1 <= i32::MAX
}

/// Whether every index `offset + row * scanlength + col` of the box is a
/// valid index into an array of `len` elements, computed without `int`
/// overflow.
pub open spec fn layout_ok(len: int, offset: i32, scanlength: i32, width: i32, height: i32) -> bool {
    width > 0 ==> forall|row: int|
        0 <= row < height ==> {
            let t = #[trigger] (row * scanlength);
            &&& i32::MIN <= t <= i32::MAX
            &&& 0 <= offset + t
            &&& offset + t + width <= len
            &&& offset + t + width - 1 <= i32::MAX
        }
}

/// The source cells of a box in row-major order, read through `layout`,
/// mirrored when `flip` is set.
pub open spec fn box_source<T>(
    pixels: Seq<T>,
    offset: int,
    scanlength: int,
    width: int,
    height: int,
    flip: bool,
    convert: spec_fn(T) -> u32,
) -> Seq<u32> {
    Seq::new(
        (width * height) as nat,
        |k: int|
            {
                let row = k / width;
                let col = k % width;
                let s_col = if flip { width - 1 - col } else { col };
                convert(pixels[offset + row * scanlength + s_col])
            },
    )
}


/// The cells of a `width` by `height` box in row-major order.
pub open spec fn row_major(width: int, height: int, value: spec_fn(int, int) -> u32) -> Seq<u32> {
    Seq::new((width * height) as nat, |k: int| value(k / width, k % width))
}

/// The source column drawn at output column `col`.
pub open spec fn source_column(flip: bool, width: int, col: int) -> int {
    if flip { width - 1 - col } else { col }
}

/// The array cell `drawPixels` reads for output cell `(row, col)`.
pub open spec fn cell_index(offset: i32, scanlength: i32, width: int, flip: bool, row: int, col: int) -> int {
    offset + row * scanlength + source_column(flip, width, col)
}

/// The target pixel a read-back at user `(x + col, y + row)` sees.
pub open spec fn read_back(state: GraphicsState, image: ImageView, x: i32, y: i32, row: int, col: int) -> u32 {
    image.pixels[pixel_index(
        image.width,
        wrap_i32(x + col + state.translate_x),
        wrap_i32(y + row + state.translate_y),
    )]
}

/// Whether every read-back position of the box lies on the target.
pub open spec fn reads_in_bounds(state: GraphicsState, image: ImageView, x: i32, y: i32, width: i32, height: i32) -> bool {
    forall|row: int, col: int|
        0 <= row < height && 0 <= col < width ==> in_bounds(
            image.width,
            image.height,
            #[trigger] wrap_i32(x + col + state.translate_x),
            #[trigger] wrap_i32(y + row + state.translate_y),
        )
}

/// The array after `getPixels` has written the cells before `(row, col)`
/// in row-major order; a later write to the same cell wins.
pub open spec fn written<T>(
    start: Seq<T>,
    offset: i32,
    scanlength: i32,
    width: int,
    row: int,
    col: int,
    value: spec_fn(int, int) -> T,
) -> Seq<T>
    decreases row, col,
{
    if row <= 0 && col <= 0 {
        start
    } else if col <= 0 {
        written(start, offset, scanlength, width, row - 1, width, value)
    } else {
        written(start, offset, scanlength, width, row, col - 1, value).update(
            offset + row * scanlength + col - 1,
            value(row, col - 1),
        )
    }
}

proof fn lemma_row_major_index(width: int, height: int, row: int, col: int)
    requires
        0 <= row < height,
        0 <= col < width,
    ensures
        0 <= row * width + col < width * height,
        (row * width + col) / width == row,
        (row * width + col) % width == col,
{
    assert(0 <= row * width + col < width * height) by (nonlinear_arith)
        requires
            0 <= row < height,
            0 <= col < width,
    ;
    vstd::arithmetic::div_mod::lemma_fundamental_div_mod_converse(row * width + col, width, row, col);
}

impl<'g, 'a> DirectGraphics<'g, 'a> {
    /// The wrapped Graphics context, as it stands now.
    pub closed spec fn graphics(&self) -> Graphics<'a> {
        *self.g
    }

    /// The effect of one box blit on the wrapped context.
    pub open spec fn blitted(
        before: Graphics<'a>,
        after: Graphics<'a>,
        x: i32,
        y: i32,
        width: int,
        height: int,
        source: Seq<u32>,
        transparency: bool,
    ) -> bool {
        &&& after.wf()
        &&& after.state() == before.state()
        &&& repainted(
            before.target_image()@,
            after.target_image()@,
            box_paint(
                before.state(),
                before.target_image()@,
                x,
                y,
                width,
                height,
                source,
                transparency,
                every_cell(),
            ),
        )
    }


    /// Converts the box's cells in row-major order, reading
    /// `offset + row * scanlength + column` with the column mirrored when
    /// `flip` is set.
    fn gather_4444(pixels: &[i16], offset: i32, scanlength: i32, width: i32, height: i32, flip: bool) -> (r: Vec<u32>)
        requires
            width > 0 && height > 0,
            layout_ok(pixels@.len() as int, offset, scanlength, width, height),
        ensures
            r@ == row_major(
                width as int,
                height as int,
                |row: int, col: int| expand_4444(pixels@[cell_index(offset, scanlength, width as int, flip, row, col)] as u16),
            ),
    {
        let ghost value = |row: int, col: int| expand_4444(pixels@[cell_index(offset, scanlength, width as int, flip, row, col)] as u16);
        let mut out: Vec<u32> = Vec::new();
        let mut row: i32 = 0;
        while row < height
            invariant
                0 <= row <= height,
                width > 0,
                layout_ok(pixels@.len() as int, offset, scanlength, width, height),
                out@.len() == row * width,
                forall|r: int, c: int| 0 <= r < row && 0 <= c < width ==> #[trigger] out@[r * width + c] == value(r, c),
                forall|r: int, c: int| #[trigger] value(r, c) == expand_4444(pixels@[cell_index(offset, scanlength, width as int, flip, r, c)] as u16),
            decreases height - row,
        {
            let mut col: i32 = 0;
            while col < width
                invariant
                    0 <= col <= width,
                    0 <= row < height,
                    layout_ok(pixels@.len() as int, offset, scanlength, width, height),
                    out@.len() == row * width + col,
                    forall|r: int, c: int| 0 <= r < row && 0 <= c < width ==> #[trigger] out@[r * width + c] == value(r, c),
                    forall|c: int| 0 <= c < col ==> #[trigger] out@[row * width + c] == value(row as int, c),
                    forall|r: int, c: int| #[trigger] value(r, c) == expand_4444(pixels@[cell_index(offset, scanlength, width as int, flip, r, c)] as u16),
                decreases width - col,
            {
                let t = row * scanlength;
                let s_col = if flip { width - 1 - col } else { col };
                let idx = offset + t + s_col;
                let p = argb4444_to_argb8888(pixels[idx as usize]);
                proof {
                    assert(row * width <= row * width + col);
                }
                out.push(p);
                proof {
                    assert forall|r: int, c: int| 0 <= r < row && 0 <= c < width implies #[trigger] out@[r * width + c] == value(r, c) by {
                        assert(r * width + c < row * width) by (nonlinear_arith)
                            requires
                                0 <= r < row,
                                0 <= c < width,
                        ;
                    }
                }
                col = col + 1;
            }
            proof {
                assert forall|r: int, c: int| 0 <= r < row + 1 && 0 <= c < width implies #[trigger] out@[r * width + c] == value(r, c) by {
                    if r == row {
                        assert(out@[row * width + c] == value(row as int, c));
                    }
                }
                assert((row + 1) * width == row * width + width) by (nonlinear_arith);
            }
            row = row + 1;
        }
        proof {
            assert(out@.len() == width * height) by (nonlinear_arith)
                requires
                    out@.len() == row * width,
                    row == height,
            ;
            assert forall|k: int| 0 <= k < out@.len() implies out@[k] == value(k / width as int, k % width as int) by {
                vstd::arithmetic::div_mod::lemma_fundamental_div_mod(k, width as int);
                let r = k / width as int;
                let c = k % width as int;
                assert(0 <= r < height) by (nonlinear_arith)
                    requires
                        k == width * r + c,
                        0 <= c < width,
                        0 <= k < width * height,
                        width > 0,
                ;
                assert(k == r * width + c) by (nonlinear_arith)
                    requires
                        k == width * r + c,
                ;
            }
            assert(out@ =~= row_major(width as int, height as int, value));
        }
        out
    }

    /// `drawPixels(short[] pixels, boolean transparency, int offset, int
    /// scanlength, int x, int y, int width, int height, int manipulation, int
    /// format)` — the ARGB4444 blit. `transparency = true` source-over composites
    /// the expanded pixel; `false` ignores the source alpha and draws opaque.
    /// Source pixel `(col, row)` is read at `offset + row * scanlength + col`;
    /// `FLIP_HORIZONTAL` reads the columns from the far end while the destination
    /// box stays put.
    pub fn draw_pixels_4444(
        &mut self,
        pixels: &[i16],
        transparency: bool,
        offset: i32,
        scanlength: i32,
        x: i32,
        y: i32,
        width: i32,
        height: i32,
        manipulation: i32,
        format: i32,
    ) -> (r: Result<(), JavaError>)
        requires
            old(self).graphics().wf(),
            format == TYPE_USHORT_4444_ARGB && manipulation_of(manipulation) is Some && width > 0 && height > 0
                ==> layout_ok(pixels@.len() as int, offset, scanlength, width, height) && box_fits(x, y, width, height),
        ensures
            final(self).graphics().wf(),
            final(self).graphics().state() == old(self).graphics().state(),
            format == TYPE_INT_8888_ARGB ==> r == Err::<(), JavaError>(
                JavaError::IllegalArgument("drawPixels(short[]): format must be TYPE_USHORT_4444_ARGB"),
            ),
            format != TYPE_INT_8888_ARGB && format != TYPE_USHORT_4444_ARGB ==> r == Err::<(), JavaError>(
                JavaError::IllegalArgument("DirectGraphics pixel format not implemented (only 4444 and 8888)"),
            ),
            format == TYPE_USHORT_4444_ARGB && manipulation_of(manipulation) is None ==> r == Err::<(), JavaError>(
                manipulation_error(),
            ),
            r is Err ==> final(self).graphics() == old(self).graphics(),
            r is Ok <==> format == TYPE_USHORT_4444_ARGB && manipulation_of(manipulation) is Some,
            r is Ok && (width <= 0 || height <= 0) ==> final(self).graphics() == old(self).graphics(),
            r is Ok && width > 0 && height > 0 ==> Self::blitted(
                old(self).graphics(),
                final(self).graphics(),
                x,
                y,
                width as int,
                height as int,
                row_major(
                    width as int,
                    height as int,
                    |row: int, col: int|
                        expand_4444(
                            pixels@[cell_index(
                                offset,
                                scanlength,
                                width as int,
                                manipulation_of(manipulation) == Some(Manipulation::FlipHorizontal),
                                row,
                                col,
                            )] as u16,
                        ),
                ),
                transparency,
            ),
    {
        let format = PixelFormat::from_raw(format)?;
        if format != PixelFormat::Ushort4444Argb {
            return Err(JavaError::IllegalArgument("drawPixels(short[]): format must be TYPE_USHORT_4444_ARGB"));
        }
        let flip_h = Manipulation::from_raw(manipulation)?.flips_horizontally();
        if width <= 0 || height <= 0 {
            return Ok(());
        }
        let source = Self::gather_4444(pixels, offset, scanlength, width, height, flip_h);
        self.blit_box(x, y, width, height, &source, transparency);
        Ok(())
    }

    /// Converts the box's cells in row-major order, reading
    /// `offset + row * scanlength + column` with the column mirrored when
    /// `flip` is set.
    fn gather_8888(pixels: &[i32], offset: i32, scanlength: i32, width: i32, height: i32, flip: bool) -> (r: Vec<u32>)
        requires
            width > 0 && height > 0,
            layout_ok(pixels@.len() as int, offset, scanlength, width, height),
        ensures
            r@ == row_major(
                width as int,
                height as int,
                |row: int, col: int| pixels@[cell_index(offset, scanlength, width as int, flip, row, col)] as u32,
            ),
    {
        let ghost value = |row: int, col: int| pixels@[cell_index(offset, scanlength, width as int, flip, row, col)] as u32;
        let mut out: Vec<u32> = Vec::new();
        let mut row: i32 = 0;
        while row < height
            invariant
                0 <= row <= height,
                width > 0,
                layout_ok(pixels@.len() as int, offset, scanlength, width, height),
                out@.len() == row * width,
                forall|r: int, c: int| 0 <= r < row && 0 <= c < width ==> #[trigger] out@[r * width + c] == value(r, c),
                forall|r: int, c: int| #[trigger] value(r, c) == pixels@[cell_index(offset, scanlength, width as int, flip, r, c)] as u32,
            decreases height - row,
        {
            let mut col: i32 = 0;
            while col < width
                invariant
                    0 <= col <= width,
                    0 <= row < height,
                    layout_ok(pixels@.len() as int, offset, scanlength, width, height),
                    out@.len() == row * width + col,
                    forall|r: int, c: int| 0 <= r < row && 0 <= c < width ==> #[trigger] out@[r * width + c] == value(r, c),
                    forall|c: int| 0 <= c < col ==> #[trigger] out@[row * width + c] == value(row as int, c),
                    forall|r: int, c: int| #[trigger] value(r, c) == pixels@[cell_index(offset, scanlength, width as int, flip, r, c)] as u32,
                decreases width - col,
            {
                let t = row * scanlength;
                let s_col = if flip { width - 1 - col } else { col };
                let idx = offset + t + s_col;
                let p = pixels[idx as usize] as u32;
                proof {
                    assert(row * width <= row * width + col);
                }
                out.push(p);
                proof {
                    assert forall|r: int, c: int| 0 <= r < row && 0 <= c < width implies #[trigger] out@[r * width + c] == value(r, c) by {
                        assert(r * width + c < row * width) by (nonlinear_arith)
                            requires
                                0 <= r < row,
                                0 <= c < width,
                        ;
                    }
                }
                col = col + 1;
            }
            proof {
                assert forall|r: int, c: int| 0 <= r < row + 1 && 0 <= c < width implies #[trigger] out@[r * width + c] == value(r, c) by {
                    if r == row {
                        assert(out@[row * width + c] == value(row as int, c));
                    }
                }
                assert((row + 1) * width == row * width + width) by (nonlinear_arith);
            }
            row = row + 1;
        }
        proof {
            assert(out@.len() == width * height) by (nonlinear_arith)
                requires
                    out@.len() == row * width,
                    row == height,
            ;
            assert forall|k: int| 0 <= k < out@.len() implies out@[k] == value(k / width as int, k % width as int) by {
                vstd::arithmetic::div_mod::lemma_fundamental_div_mod(k, width as int);
                let r = k / width as int;
                let c = k % width as int;
                assert(0 <= r < height) by (nonlinear_arith)
                    requires
                        k == width * r + c,
                        0 <= c < width,
                        0 <= k < width * height,
                        width > 0,
                ;
                assert(k == r * width + c) by (nonlinear_arith)
                    requires
                        k == width * r + c,
                ;
            }
            assert(out@ =~= row_major(width as int, height as int, value));
        }
        out
    }

    /// `drawPixels(int[] pixels, …)` — the ARGB8888 blit (full-screen fade /
    /// darkness overlays). Pixels are the raw `0xAARRGGBB` bit pattern.
    pub fn draw_pixels_8888(
        &mut self,
        pixels: &[i32],
        transparency: bool,
        offset: i32,
        scanlength: i32,
        x: i32,
        y: i32,
        width: i32,
        height: i32,
        manipulation: i32,
        format: i32,
    ) -> (r: Result<(), JavaError>)
        requires
            old(self).graphics().wf(),
            format == TYPE_INT_8888_ARGB && manipulation_of(manipulation) is Some && width > 0 && height > 0
                ==> layout_ok(pixels@.len() as int, offset, scanlength, width, height) && box_fits(x, y, width, height),
        ensures
            final(self).graphics().wf(),
            final(self).graphics().state() == old(self).graphics().state(),
            format == TYPE_USHORT_4444_ARGB ==> r == Err::<(), JavaError>(
                JavaError::IllegalArgument("drawPixels(int[]): format must be TYPE_INT_8888_ARGB"),
            ),
            format != TYPE_INT_8888_ARGB && format != TYPE_USHORT_4444_ARGB ==> r == Err::<(), JavaError>(
                JavaError::IllegalArgument("DirectGraphics pixel format not implemented (only 4444 and 8888)"),
            ),
            format == TYPE_INT_8888_ARGB && manipulation_of(manipulation) is None ==> r == Err::<(), JavaError>(
                manipulation_error(),
            ),
            r is Err ==> final(self).graphics() == old(self).graphics(),
            r is Ok <==> format == TYPE_INT_8888_ARGB && manipulation_of(manipulation) is Some,
            r is Ok && (width <= 0 || height <= 0) ==> final(self).graphics() == old(self).graphics(),
            r is Ok && width > 0 && height > 0 ==> Self::blitted(
                old(self).graphics(),
                final(self).graphics(),
                x,
                y,
                width as int,
                height as int,
                row_major(
                    width as int,
                    height as int,
                    |row: int, col: int|
                        pixels@[cell_index(
                            offset,
                            scanlength,
                            width as int,
                            manipulation_of(manipulation) == Some(Manipulation::FlipHorizontal),
                            row,
                            col,
                        )] as u32,
                ),
                transparency,
            ),
    {
        let format = PixelFormat::from_raw(format)?;
        if format != PixelFormat::Int8888Argb {
            return Err(JavaError::IllegalArgument("drawPixels(int[]): format must be TYPE_INT_8888_ARGB"));
        }
        let flip_h = Manipulation::from_raw(manipulation)?.flips_horizontally();
        if width <= 0 || height <= 0 {
            return Ok(());
        }
        let source = Self::gather_8888(pixels, offset, scanlength, width, height, flip_h);
        self.blit_box(x, y, width, height, &source, transparency);
        Ok(())
    }


    fn gather_image(img: &Image, flip: bool) -> (r: Vec<u32>)
        requires
            img.wf(),
        ensures
            r@ == row_major(
                img@.width,
                img@.height,
                |row: int, col: int| img@.pixels[pixel_index(img@.width, source_column(flip, img@.width, col), row)],
            ),
    {
        let width = img.width();
        let height = img.height();
        let ghost value = |row: int, col: int| img@.pixels[pixel_index(img@.width, source_column(flip, img@.width, col), row)];
        let mut out: Vec<u32> = Vec::new();
        let mut row: i32 = 0;
        while row < height
            invariant
                0 <= row <= height,
                width == img@.width && height == img@.height,
                img.wf(),
                out@.len() == row * width,
                forall|r: int, c: int| 0 <= r < row && 0 <= c < width ==> #[trigger] out@[r * width + c] == value(r, c),
                forall|r: int, c: int| #[trigger] value(r, c) == img@.pixels[pixel_index(img@.width, source_column(flip, img@.width, c), r)],
            decreases height - row,
        {
            let mut col: i32 = 0;
            while col < width
                invariant
                    0 <= col <= width,
                    0 <= row < height,
                    width == img@.width && height == img@.height,
                    img.wf(),
                    out@.len() == row * width + col,
                    forall|r: int, c: int| 0 <= r < row && 0 <= c < width ==> #[trigger] out@[r * width + c] == value(r, c),
                    forall|c: int| 0 <= c < col ==> #[trigger] out@[row * width + c] == value(row as int, c),
                    forall|r: int, c: int| #[trigger] value(r, c) == img@.pixels[pixel_index(img@.width, source_column(flip, img@.width, c), r)],
                decreases width - col,
            {
                let s_col = if flip { width - 1 - col } else { col };
                let p = match img.get(s_col, row) {
                    Some(p) => p,
                    None => 0,
                };
                proof {
                    assert(row * width <= row * width + col);
                }
                out.push(p);
                proof {
                    assert forall|r: int, c: int| 0 <= r < row && 0 <= c < width implies #[trigger] out@[r * width + c] == value(r, c) by {
                        assert(r * width + c < row * width) by (nonlinear_arith)
                            requires
                                0 <= r < row,
                                0 <= c < width,
                        ;
                    }
                }
                col = col + 1;
            }
            proof {
                assert forall|r: int, c: int| 0 <= r < row + 1 && 0 <= c < width implies #[trigger] out@[r * width + c] == value(r, c) by {
                    if r == row {
                        assert(out@[row * width + c] == value(row as int, c));
                    }
                }
                assert((row + 1) * width == row * width + width) by (nonlinear_arith);
            }
            row = row + 1;
        }
        proof {
            assert(out@.len() == width * height) by (nonlinear_arith)
                requires
                    out@.len() == row * width,
                    row == height,
            ;
            assert forall|k: int| 0 <= k < out@.len() implies out@[k] == value(k / width as int, k % width as int) by {
                vstd::arithmetic::div_mod::lemma_fundamental_div_mod(k, width as int);
                let r = k / width as int;
                let c = k % width as int;
                assert(0 <= r < height) by (nonlinear_arith)
                    requires
                        k == width * r + c,
                        0 <= c < width,
                        0 <= k < width * height,
                        width > 0,
                ;
                assert(k == r * width + c) by (nonlinear_arith)
                    requires
                        k == width * r + c,
                ;
            }
            assert(out@ =~= row_major(width as int, height as int, value));
        }
        out
    }

    /// `DirectGraphics.drawImage(Image img, int x, int y, int anchor, int
    /// manipulation)` — the Nokia anchored image draw, always compositing. A
    /// horizontal flip leaves the bounding box unchanged, so the anchor
    /// resolves exactly as `Graphics.drawImage`; only the source column order
    /// reverses.
    pub fn draw_image(&mut self, img: &Image, x: i32, y: i32, anchor: i32, manipulation: i32) -> (r: Result<(), JavaError>)
        requires
            old(self).graphics().wf(),
            img.wf(),
            anchor_spec(x, y, img@.width as i32, img@.height as i32, anchor) matches Ok((tlx, tly)) ==> box_fits(
                tlx,
                tly,
                img@.width as i32,
                img@.height as i32,
            ),
        ensures
            final(self).graphics().wf(),
            final(self).graphics().state() == old(self).graphics().state(),
            manipulation_of(manipulation) is None ==> r == Err::<(), JavaError>(manipulation_error()),
            manipulation_of(manipulation) is Some && anchor_spec(x, y, img@.width as i32, img@.height as i32, anchor) is Err
                ==> r == Err::<(), JavaError>(JavaError::IllegalArgument("DirectGraphics.drawImage: invalid anchor")),
            r is Err ==> final(self).graphics() == old(self).graphics(),
            r is Ok ==> manipulation_of(manipulation) is Some && (anchor_spec(x, y, img@.width as i32, img@.height as i32, anchor) matches Ok(
                (tlx, tly),
            ) && Self::blitted(
                old(self).graphics(),
                final(self).graphics(),
                tlx,
                tly,
                img@.width,
                img@.height,
                row_major(
                    img@.width,
                    img@.height,
                    |row: int, col: int|
                        img@.pixels[pixel_index(
                            img@.width,
                            source_column(
                                manipulation_of(manipulation) == Some(Manipulation::FlipHorizontal),
                                img@.width,
                                col,
                            ),
                            row,
                        )],
                ),
                true,
            )),
            manipulation_of(manipulation) is Some && anchor_spec(x, y, img@.width as i32, img@.height as i32, anchor) is Ok
                ==> r is Ok,
    {
        let flip_h = Manipulation::from_raw(manipulation)?.flips_horizontally();
        let width = img.width();
        let height = img.height();
        let (tlx, tly) = match anchor_top_left(x, y, width, height, anchor) {
            Ok(corner) => corner,
            Err(_) => return Err(JavaError::IllegalArgument("DirectGraphics.drawImage: invalid anchor")),
        };
        let source = Self::gather_image(img, flip_h);
        self.blit_box(tlx, tly, width, height, &source, true);
        Ok(())
    }

    /// `getPixels(short[] pixels, int offset, int scanlength, int x, int y, int
    /// width, int height, int format)` — read a target region back as ARGB4444
    /// (truncating each channel to its high nibble), written row-major into
    /// the array.
    pub fn get_pixels_4444(
        &mut self,
        pixels: &mut [i16],
        offset: i32,
        scanlength: i32,
        x: i32,
        y: i32,
        width: i32,
        height: i32,
        format: i32,
    ) -> (r: Result<(), JavaError>)
        requires
            old(self).graphics().wf(),
            format == TYPE_USHORT_4444_ARGB && width > 0 && height > 0 ==> layout_ok(
                old(pixels)@.len() as int,
                offset,
                scanlength,
                width,
                height,
            ) && box_fits(x, y, width, height) && reads_in_bounds(
                old(self).graphics().state(),
                old(self).graphics().target_image()@,
                x,
                y,
                width,
                height,
            ),
        ensures
            final(self).graphics() == old(self).graphics(),
            format == TYPE_INT_8888_ARGB ==> r == Err::<(), JavaError>(
                JavaError::IllegalArgument("getPixels(short[]): format must be TYPE_USHORT_4444_ARGB"),
            ),
            format != TYPE_INT_8888_ARGB && format != TYPE_USHORT_4444_ARGB ==> r == Err::<(), JavaError>(
                JavaError::IllegalArgument("DirectGraphics pixel format not implemented (only 4444 and 8888)"),
            ),
            r is Ok <==> format == TYPE_USHORT_4444_ARGB,
            r is Err ==> final(pixels)@ == old(pixels)@,
            r is Ok ==> final(pixels)@ == written(
                old(pixels)@,
                offset,
                scanlength,
                width as int,
                if height > 0 && width > 0 { height as int } else { 0 },
                0,
                |row: int, col: int|
                    quantize_8888(
                        read_back(old(self).graphics().state(), old(self).graphics().target_image()@, x, y, row, col),
                    ) as i16,
            ),
    {
        let format = PixelFormat::from_raw(format)?;
        if format != PixelFormat::Ushort4444Argb {
            return Err(JavaError::IllegalArgument("getPixels(short[]): format must be TYPE_USHORT_4444_ARGB"));
        }
        if width <= 0 || height <= 0 {
            return Ok(());
        }
        let ghost state = self.g.state();
        let ghost image = self.g.target_image()@;
        let ghost value = |row: int, col: int| quantize_8888(read_back(state, image, x, y, row, col)) as i16;
        let ghost start = pixels@;
        let mut row: i32 = 0;
        while row < height
            invariant
                0 <= row <= height,
                width > 0,
                layout_ok(start.len() as int, offset, scanlength, width, height),
                box_fits(x, y, width, height),
                reads_in_bounds(state, image, x, y, width, height),
                self.graphics() == old(self).graphics(),
                state == self.graphics().state(),
                image == self.graphics().target_image()@,
                self.graphics().wf(),
                pixels@.len() == start.len(),
                start == old(pixels)@,
                pixels@ == written(start, offset, scanlength, width as int, row as int, 0, value),
                forall|r: int, c: int| #[trigger] value(r, c) == quantize_8888(read_back(state, image, x, y, r, c)) as i16,
            decreases height - row,
        {
            let mut col: i32 = 0;
            while col < width
                invariant
                    0 <= col <= width,
                    0 <= row < height,
                    layout_ok(start.len() as int, offset, scanlength, width, height),
                    box_fits(x, y, width, height),
                    reads_in_bounds(state, image, x, y, width, height),
                    self.graphics() == old(self).graphics(),
                    state == self.graphics().state(),
                    image == self.graphics().target_image()@,
                    self.graphics().wf(),
                    pixels@.len() == start.len(),
                    start == old(pixels)@,
                    pixels@ == written(start, offset, scanlength, width as int, row as int, col as int, value),
                    forall|r: int, c: int| #[trigger] value(r, c) == quantize_8888(read_back(state, image, x, y, r, c)) as i16,
                decreases width - col,
            {
                proof {
                    assert(in_bounds(image.width, image.height, wrap_i32(x + col + state.translate_x), wrap_i32(y + row + state.translate_y)));
                }
                let argb = match self.g.read(x + col, y + row) {
                    Some(argb) => argb,
                    None => 0,
                };
                let t = row * scanlength;
                let idx = offset + t + col;
                pixels[idx as usize] = argb8888_to_argb4444(argb);
                col = col + 1;
            }
            row = row + 1;
        }
        Ok(())
    }

    /// `getPixels(int[] pixels, …)` — read back as ARGB8888.
    pub fn get_pixels_8888(
        &mut self,
        pixels: &mut [i32],
        offset: i32,
        scanlength: i32,
        x: i32,
        y: i32,
        width: i32,
        height: i32,
        format: i32,
    ) -> (r: Result<(), JavaError>)
        requires
            old(self).graphics().wf(),
            format == TYPE_INT_8888_ARGB && width > 0 && height > 0 ==> layout_ok(
                old(pixels)@.len() as int,
                offset,
                scanlength,
                width,
                height,
            ) && box_fits(x, y, width, height) && reads_in_bounds(
                old(self).graphics().state(),
                old(self).graphics().target_image()@,
                x,
                y,
                width,
                height,
            ),
        ensures
            final(self).graphics() == old(self).graphics(),
            format == TYPE_USHORT_4444_ARGB ==> r == Err::<(), JavaError>(
                JavaError::IllegalArgument("getPixels(int[]): format must be TYPE_INT_8888_ARGB"),
            ),
            format != TYPE_INT_8888_ARGB && format != TYPE_USHORT_4444_ARGB ==> r == Err::<(), JavaError>(
                JavaError::IllegalArgument("DirectGraphics pixel format not implemented (only 4444 and 8888)"),
            ),
            r is Ok <==> format == TYPE_INT_8888_ARGB,
            r is Err ==> final(pixels)@ == old(pixels)@,
            r is Ok ==> final(pixels)@ == written(
                old(pixels)@,
                offset,
                scanlength,
                width as int,
                if height > 0 && width > 0 { height as int } else { 0 },
                0,
                |row: int, col: int|
                    read_back(old(self).graphics().state(), old(self).graphics().target_image()@, x, y, row, col) as i32,
            ),
    {
        let format = PixelFormat::from_raw(format)?;
        if format != PixelFormat::Int8888Argb {
            return Err(JavaError::IllegalArgument("getPixels(int[]): format must be TYPE_INT_8888_ARGB"));
        }
        if width <= 0 || height <= 0 {
            return Ok(());
        }
        let ghost state = self.g.state();
        let ghost image = self.g.target_image()@;
        let ghost value = |row: int, col: int| read_back(state, image, x, y, row, col) as i32;
        let ghost start = pixels@;
        let mut row: i32 = 0;
        while row < height
            invariant
                0 <= row <= height,
                width > 0,
                layout_ok(start.len() as int, offset, scanlength, width, height),
                box_fits(x, y, width, height),
                reads_in_bounds(state, image, x, y, width, height),
                self.graphics() == old(self).graphics(),
                state == self.graphics().state(),
                image == self.graphics().target_image()@,
                self.graphics().wf(),
                pixels@.len() == start.len(),
                start == old(pixels)@,
                pixels@ == written(start, offset, scanlength, width as int, row as int, 0, value),
                forall|r: int, c: int| #[trigger] value(r, c) == read_back(state, image, x, y, r, c) as i32,
            decreases height - row,
        {
            let mut col: i32 = 0;
            while col < width
                invariant
                    0 <= col <= width,
                    0 <= row < height,
                    layout_ok(start.len() as int, offset, scanlength, width, height),
                    box_fits(x, y, width, height),
                    reads_in_bounds(state, image, x, y, width, height),
                    self.graphics() == old(self).graphics(),
                    state == self.graphics().state(),
                    image == self.graphics().target_image()@,
                    self.graphics().wf(),
                    pixels@.len() == start.len(),
                    start == old(pixels)@,
                    pixels@ == written(start, offset, scanlength, width as int, row as int, col as int, value),
                    forall|r: int, c: int| #[trigger] value(r, c) == read_back(state, image, x, y, r, c) as i32,
                decreases width - col,
            {
                proof {
                    assert(in_bounds(image.width, image.height, wrap_i32(x + col + state.translate_x), wrap_i32(y + row + state.translate_y)));
                }
                let argb = match self.g.read(x + col, y + row) {
                    Some(argb) => argb,
                    None => 0,
                };
                let t = row * scanlength;
                let idx = offset + t + col;
                pixels[idx as usize] = argb as i32;
                col = col + 1;
            }
            row = row + 1;
        }
        Ok(())
    }

    /// Draws a `width` by `height` box of ready `0xAARRGGBB` pixels at user
    /// `(x, y)` through the wrapped context.
    fn blit_box(&mut self, x: i32, y: i32, width: i32, height: i32, source: &Vec<u32>, transparency: bool)
        requires
            old(self).graphics().wf(),
            width >= 0 && height >= 0,
            source@.len() == width * height,
            box_fits(x, y, width, height),
        ensures
            Self::blitted(
                old(self).graphics(),
                final(self).graphics(),
                x,
                y,
                width as int,
                height as int,
                source@,
                transparency,
            ),
    {
        let ghost state = self.g.state();
        let ghost before = self.g.target_image()@;
        proof {
            crate::me::graphics::lemma_repainted_nothing(before);
            lemma_repaint_congruent(
                before,
                before,
                crate::me::graphics::no_paint(),
                box_paint(state, before, x, y, width as int, height as int, source@, transparency, before_cell(0, 0)),
            );
        }
        let n = source.len();
        let mut row: i32 = 0;
        while row < height
            invariant
                n == source@.len(),
                0 <= row <= height,
                width >= 0,
                source@.len() == width * height,
                box_fits(x, y, width, height),
                self.graphics().wf(),
                self.graphics().state() == state,
                state == old(self).graphics().state(),
                before == old(self).graphics().target_image()@,
                repainted(
                    before,
                    self.graphics().target_image()@,
                    box_paint(state, before, x, y, width as int, height as int, source@, transparency, before_cell(row as int, 0)),
                ),
            decreases height - row,
        {
            let mut col: i32 = 0;
            while col < width
                invariant
                    n == source@.len(),
                    0 <= col <= width,
                    0 <= row < height,
                    source@.len() == width * height,
                    box_fits(x, y, width, height),
                    self.graphics().wf(),
                    self.graphics().state() == state,
                    state == old(self).graphics().state(),
                    before == old(self).graphics().target_image()@,
                    repainted(
                        before,
                        self.graphics().target_image()@,
                        box_paint(
                            state,
                            before,
                            x,
                            y,
                            width as int,
                            height as int,
                            source@,
                            transparency,
                            before_cell(row as int, col as int),
                        ),
                    ),
                decreases width - col,
            {
                proof {
                    assert(0 <= row * width && row * width + col < width * height) by (nonlinear_arith)
                        requires
                            0 <= row < height,
                            0 <= col < width,
                    ;
                }
                assert(row * width <= row * width + col);
                let k = row as usize * width as usize + col as usize;
                let p = source[k];
                let ghost middle = self.g.target_image()@;
                let ghost paint = box_paint(
                    state,
                    before,
                    x,
                    y,
                    width as int,
                    height as int,
                    source@,
                    transparency,
                    before_cell(row as int, col as int),
                );
                let ghost next = box_paint(
                    state,
                    before,
                    x,
                    y,
                    width as int,
                    height as int,
                    source@,
                    transparency,
                    before_cell(row as int, col + 1),
                );
                let ux = x + col;
                let uy = y + row;
                let argb = if transparency { p } else { p | 0xff00_0000u32 };
                self.g.plot(ux, uy, argb, transparency);
                proof {
                    let px = wrapping(ux + state.translate_x) as int;
                    let py = wrapping(uy + state.translate_y) as int;
                    let single = |a: int, b: int|
                        if a == px && b == py && rect_contains(state.clip, a, b) {
                            Some(
                                if transparency {
                                    source_over_spec(argb, middle.pixels[pixel_index(middle.width, a, b)])
                                } else {
                                    argb
                                },
                            )
                        } else {
                            None
                        };
                    lemma_repaint_compose(before, middle, self.g.target_image()@, paint, single);
                    lemma_wrap_offset(state.translate_x, ux as int, px);
                    lemma_wrap_offset(state.translate_y, uy as int, py);
                    assert forall|a: int, b: int| in_bounds(before.width, before.height, a, b) implies #[trigger] next(a, b)
                        == overlay(paint, single)(a, b) by {
                        let c = wrap_i32(a - state.translate_x) - x;
                        let r = wrap_i32(b - state.translate_y) - y;
                        if c == col && r == row {
                            lemma_wrap_offset(state.translate_x, ux as int, a);
                            lemma_wrap_offset(state.translate_y, uy as int, b);
                        }
                        if a == px && b == py {
                            assert(paint(a, b) is None);
                        }
                    }
                    lemma_repaint_congruent(before, self.g.target_image()@, overlay(paint, single), next);
                }
                col = col + 1;
            }
            proof {
                lemma_repaint_congruent(
                    before,
                    self.graphics().target_image()@,
                    box_paint(state, before, x, y, width as int, height as int, source@, transparency, before_cell(row as int, col as int)),
                    box_paint(state, before, x, y, width as int, height as int, source@, transparency, before_cell(row + 1, 0)),
                );
            }
            row = row + 1;
        }
        proof {
            lemma_repaint_congruent(
                before,
                self.graphics().target_image()@,
                box_paint(state, before, x, y, width as int, height as int, source@, transparency, before_cell(row as int, 0)),
                box_paint(state, before, x, y, width as int, height as int, source@, transparency, every_cell()),
            );
        }
    }
}

} // verus!
