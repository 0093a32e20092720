//! Game-neutral ARGB image storage shared by the MIDP runtime and host tools.
//!
//! Encoded PNG handling is deliberately outside this module: a resource
//! adapter decodes bytes and calls [`Image::from_argb`].

use vstd::prelude::*;

verus! {

pub type Argb = u32;

#[derive(Clone, Copy, Debug, Eq, PartialEq, Structural)]
pub enum ImageError {
    InvalidDimensions,
    PixelCountOverflow,
    PixelCountMismatch { expected: usize, actual: usize },
}

#[derive(Debug, PartialEq, Eq)]
pub struct Image {
    width: i32,
    height: i32,
    pixels: Vec<Argb>,
    mutable: bool,
}

/// The mathematical content of an image: its size, its row-major pixels and
/// whether drawing may change it.
pub struct ImageView {
    pub width: int,
    pub height: int,
    pub pixels: Seq<Argb>,
    pub mutable: bool,
}

/// How a pair of dimensions is refused, if it is.
pub open spec fn dimension_error(width: int, height: int) -> Option<ImageError> {
    if width <= 0 || height <= 0 {
        Some(ImageError::InvalidDimensions)
    } else if width * height > usize::MAX {
        Some(ImageError::PixelCountOverflow)
    } else {
        None
    }
}

/// Whether `(x, y)` lies inside a `width` by `height` raster.
pub open spec fn in_bounds(width: int, height: int, x: int, y: int) -> bool {
    0 <= x < width && 0 <= y < height
}

/// Row-major position of `(x, y)`.
pub open spec fn pixel_index(width: int, x: int, y: int) -> int {
    y * width + x
}

proof fn lemma_index_in_range(width: int, height: int, x: int, y: int)
    requires
        in_bounds(width, height, x, y),
    ensures
        0 <= pixel_index(width, x, y) < width * height,
{
    assert(y * width + x < width * height) by (nonlinear_arith)
        requires
            0 <= x < width,
            0 <= y < height,
    ;
    assert(0 <= y * width) by (nonlinear_arith)
        requires
            0 <= y,
            0 <= width,
    ;
}

impl View for Image {
    type V = ImageView;

    closed spec fn view(&self) -> ImageView {
        ImageView { width: self.width as int, height: self.height as int, pixels: self.pixels@, mutable: self.mutable }
    }
}

impl Clone for Image {
    fn clone(&self) -> (r: Self)
        ensures
            r@ == self@,
    {
        let pixels = self.pixels.clone();
        assert(pixels@ =~= self.pixels@);
        Image { width: self.width, height: self.height, pixels, mutable: self.mutable }
    }
}

fn pixel_count(width: i32, height: i32) -> (r: Result<usize, ImageError>)
    ensures
        match dimension_error(width as int, height as int) {
            Some(e) => r == Err::<usize, ImageError>(e),
            None => r == Ok::<usize, ImageError>((width * height) as usize),
        },
{
    if width <= 0 || height <= 0 {
        return Err(ImageError::InvalidDimensions);
    }
    match (width as usize).checked_mul(height as usize) {
        Some(n) => Ok(n),
        None => Err(ImageError::PixelCountOverflow),
    }
}

impl Image {
    /// Positive dimensions and exactly one pixel per cell.
    pub open spec fn wf(&self) -> bool {
        &&& self@.width > 0
        &&& self@.height > 0
        &&& self@.pixels.len() == self@.width * self@.height
        &&& self@.width <= i32::MAX
        &&& self@.height <= i32::MAX
    }

    /// A white, drawable image.
    pub fn create_mutable(width: i32, height: i32) -> (r: Result<Self, ImageError>)
        ensures
            match dimension_error(width as int, height as int) {
                Some(e) => r == Err::<Image, ImageError>(e),
                None => r matches Ok(image) && image.wf() && image@.width == width && image@.height == height
                    && image@.mutable && image@.pixels == Seq::new(
                    (width * height) as nat,
                    |i: int| 0xffff_ffffu32,
                ),
            },
    {
        let length = pixel_count(width, height)?;
        let pixels = vec![0xffff_ffffu32; length];
        let image = Self { width, height, pixels, mutable: true };
        assert(image@.pixels =~= Seq::new((width * height) as nat, |i: int| 0xffff_ffffu32));
        Ok(image)
    }

    /// An immutable image over decoded pixels, which must number exactly
    /// `width * height`.
    pub fn from_argb(width: i32, height: i32, pixels: Vec<Argb>) -> (r: Result<Self, ImageError>)
        ensures
            match dimension_error(width as int, height as int) {
                Some(e) => r == Err::<Image, ImageError>(e),
                None => if pixels.len() != width * height {
                    r == Err::<Image, ImageError>(
                        ImageError::PixelCountMismatch { expected: (width * height) as usize, actual: pixels.len() },
                    )
                } else {
                    r matches Ok(image) && image.wf() && image@ == (ImageView {
                        width: width as int,
                        height: height as int,
                        pixels: pixels@,
                        mutable: false,
                    })
                },
            },
    {
        let expected = pixel_count(width, height)?;
        if pixels.len() != expected {
            return Err(ImageError::PixelCountMismatch { expected, actual: pixels.len() });
        }
        Ok(Self { width, height, pixels, mutable: false })
    }

    pub fn width(&self) -> (r: i32)
        ensures
            r == self@.width,
    {
        self.width
    }

    pub fn height(&self) -> (r: i32)
        ensures
            r == self@.height,
    {
        self.height
    }

    pub fn is_mutable(&self) -> (r: bool)
        ensures
            r == self@.mutable,
    {
        self.mutable
    }

    pub fn pixels(&self) -> (r: &[Argb])
        ensures
            r@ == self@.pixels,
    {
        self.pixels.as_slice()
    }

    /// The raster for in-place drawing; its length cannot change.
    pub fn pixels_mut(&mut self) -> (r: &mut [Argb])
        ensures
            r@ == old(self)@.pixels,
            final(self)@ == (ImageView { pixels: final(r)@, ..old(self)@ }),
    {
        self.pixels.as_mut_slice()
    }

    /// The pixel at `(x, y)`, or `None` outside the raster.
    pub fn get(&self, x: i32, y: i32) -> (r: Option<Argb>)
        requires
            self.wf(),
        ensures
            in_bounds(self@.width, self@.height, x as int, y as int) ==> r == Some(
                self@.pixels[pixel_index(self@.width, x as int, y as int)],
            ),
            !in_bounds(self@.width, self@.height, x as int, y as int) ==> r is None,
    {
        match self.index(x, y) {
            Some(index) => Some(self.pixels[index]),
            None => None,
        }
    }

    /// Overwrites the pixel at `(x, y)`; writes outside the raster are
    /// clipped away.
    pub fn set(&mut self, x: i32, y: i32, value: Argb)
        requires
            old(self).wf(),
        ensures
            final(self)@.width == old(self)@.width,
            final(self)@.height == old(self)@.height,
            final(self)@.mutable == old(self)@.mutable,
            final(self).wf(),
            final(self)@.pixels == if in_bounds(old(self)@.width, old(self)@.height, x as int, y as int) {
                old(self)@.pixels.update(pixel_index(old(self)@.width, x as int, y as int), value)
            } else {
                old(self)@.pixels
            },
    {
        if let Some(index) = self.index(x, y) {
            self.pixels.set(index, value);
        }
    }

    /// Composites `source` over the pixel at `(x, y)`; writes outside the
    /// raster are clipped away.
    pub fn blend(&mut self, x: i32, y: i32, source: Argb)
        requires
            old(self).wf(),
        ensures
            final(self)@.width == old(self)@.width,
            final(self)@.height == old(self)@.height,
            final(self)@.mutable == old(self)@.mutable,
            final(self).wf(),
            final(self)@.pixels == if in_bounds(old(self)@.width, old(self)@.height, x as int, y as int) {
                let i = pixel_index(old(self)@.width, x as int, y as int);
                old(self)@.pixels.update(i, source_over_spec(source, old(self)@.pixels[i]))
            } else {
                old(self)@.pixels
            },
    {
        if let Some(index) = self.index(x, y) {
            let blended = source_over(source, self.pixels[index]);
            self.pixels.set(index, blended);
        }
    }

    fn index(&self, x: i32, y: i32) -> (r: Option<usize>)
        requires
            self.wf(),
        ensures
            in_bounds(self@.width, self@.height, x as int, y as int) ==> (r matches Some(i) && i as int
                == pixel_index(self@.width, x as int, y as int) && i < self@.pixels.len()),
            !in_bounds(self@.width, self@.height, x as int, y as int) ==> r is None,
    {
        if x < 0 || y < 0 || x >= self.width || y >= self.height {
            None
        } else {
            let n = self.pixels.len();
            proof {
                lemma_index_in_range(self.width as int, self.height as int, x as int, y as int);
                assert(0 <= y * self.width <= y * self.width + x) by (nonlinear_arith)
                    requires
                        0 <= y,
                        0 <= x,
                        0 <= self.width,
                ;
            }
            let row = y as usize * self.width as usize;
            Some(row + x as usize)
        }
    }
}

/// One 8-bit channel of a packed pixel.
pub open spec fn channel_of(pixel: u32, shift: u32) -> u32 {
    (pixel >> shift) & 0xff
}

/// A colour channel of straight-alpha source-over: both contributions are
/// premultiplied, summed, and divided back by the output alpha with rounding.
pub open spec fn blend_channel(source: u32, destination: u32, shift: u32, sa: int, da: int, oa: int) -> int {
    let premultiplied = channel_of(source, shift) * sa + (channel_of(destination, shift) * da * (255 - sa)
        + 127) / 255;
    (premultiplied + oa / 2) / oa
}

/// Straight-alpha source-over compositing for packed `0xAARRGGBB` pixels.
pub open spec fn source_over_spec(source: u32, destination: u32) -> u32 {
    let sa = channel_of(source, 24) as int;
    let da = channel_of(destination, 24) as int;
    if sa == 255 {
        source
    } else if sa == 0 {
        destination
    } else {
        let oa = sa + (da * (255 - sa) + 127) / 255;
        ((oa as u32) << 24u32) | ((blend_channel(source, destination, 16, sa, da, oa) as u32) << 16u32) | ((
        blend_channel(source, destination, 8, sa, da, oa) as u32) << 8u32) | (blend_channel(
            source,
            destination,
            0,
            sa,
            da,
            oa,
        ) as u32)
    }
}

proof fn lemma_channel_byte(pixel: u32, shift: u32)
    ensures
        channel_of(pixel, shift) <= 255,
{
    assert((pixel >> shift) & 0xff <= 255) by (bit_vector);
}

fn blend_one(source: u32, destination: u32, shift: u32, sa: u32, da: u32, oa: u32) -> (r: u32)
    requires
        shift < 32,
        1 <= sa <= 254,
        da <= 255,
        sa <= oa <= 510,
    ensures
        r == blend_channel(source, destination, shift, sa as int, da as int, oa as int),
{
    proof {
        lemma_channel_byte(source, shift);
        lemma_channel_byte(destination, shift);
    }
    let sc = (source >> shift) & 0xff;
    let dc = (destination >> shift) & 0xff;
    let inverse = 255 - sa;
    assert(sc * sa <= 255 * 255) by (nonlinear_arith)
        requires
            sc <= 255,
            sa <= 255,
    ;
    assert(dc * da <= 255 * 255) by (nonlinear_arith)
        requires
            dc <= 255,
            da <= 255,
    ;
    assert(dc * da * inverse <= 255 * 255 * 255) by (nonlinear_arith)
        requires
            dc * da <= 255 * 255,
            inverse <= 255,
            dc * da >= 0,
    ;
    let premultiplied = sc * sa + (dc * da * inverse + 127) / 255;
    (premultiplied + oa / 2) / oa
}

/// Straight-alpha source-over compositing for packed `0xAARRGGBB` pixels.
pub fn source_over(source: Argb, destination: Argb) -> (r: Argb)
    ensures
        r == source_over_spec(source, destination),
{
    proof {
        lemma_channel_byte(source, 24);
        lemma_channel_byte(destination, 24);
    }
    let source_alpha = (source >> 24) & 0xff;
    if source_alpha == 0xff {
        return source;
    }
    if source_alpha == 0 {
        return destination;
    }
    let destination_alpha = (destination >> 24) & 0xff;
    let inverse = 0xff - source_alpha;
    assert(destination_alpha * inverse <= 255 * 255) by (nonlinear_arith)
        requires
            destination_alpha <= 255,
            inverse <= 255,
    ;
    let output_alpha = source_alpha + (destination_alpha * inverse + 127) / 255;
    let red = blend_one(source, destination, 16, source_alpha, destination_alpha, output_alpha);
    let green = blend_one(source, destination, 8, source_alpha, destination_alpha, output_alpha);
    let blue = blend_one(source, destination, 0, source_alpha, destination_alpha, output_alpha);
    (output_alpha << 24) | (red << 16) | (green << 8) | blue
}

/// An opaque source replaces the destination; a fully transparent one
/// leaves it untouched.
pub proof fn lemma_source_over_extremes(source: u32, destination: u32)
    ensures
        channel_of(source, 24) == 255 ==> source_over_spec(source, destination) == source,
        channel_of(source, 24) == 0 ==> source_over_spec(source, destination) == destination,
{
}


/// The output alpha of source-over for a translucent source.
pub open spec fn output_alpha(sa: int, da: int) -> int {
    sa + (da * (255 - sa) + 127) / 255
}

/// For a translucent source, every blended colour channel fits its byte (a
/// few near-transparent pairs round one past 255; those are left out).
pub open spec fn channels_fit(source: u32, destination: u32) -> bool {
    let sa = channel_of(source, 24) as int;
    let da = channel_of(destination, 24) as int;
    let oa = output_alpha(sa, da);
    (0 < sa < 255) ==> {
        &&& 0 <= blend_channel(source, destination, 16, sa, da, oa) <= 255
        &&& 0 <= blend_channel(source, destination, 8, sa, da, oa) <= 255
        &&& 0 <= blend_channel(source, destination, 0, sa, da, oa) <= 255
    }
}

proof fn lemma_unpack(a: u32, r: u32, g: u32, b: u32)
    by (bit_vector)
    requires
        a <= 255,
        r <= 255,
        g <= 255,
        b <= 255,
    ensures
        (((a << 24u32) | (r << 16u32) | (g << 8u32) | b) >> 24u32) & 0xff == a,
        (((a << 24u32) | (r << 16u32) | (g << 8u32) | b) >> 16u32) & 0xff == r,
        (((a << 24u32) | (r << 16u32) | (g << 8u32) | b) >> 8u32) & 0xff == g,
        (((a << 24u32) | (r << 16u32) | (g << 8u32) | b) >> 0u32) & 0xff == b,
{
}

proof fn lemma_output_alpha_byte(sa: int, da: int)
    requires
        0 < sa < 255,
        0 <= da <= 255,
    ensures
        sa <= output_alpha(sa, da) <= 255,
{
    assert(0 <= da * (255 - sa) <= 255 * (255 - sa)) by (nonlinear_arith)
        requires
            0 < sa < 255,
            0 <= da <= 255,
    ;
    assert((da * (255 - sa) + 127) / 255 <= 255 - sa) by (nonlinear_arith)
        requires
            0 <= da * (255 - sa) <= 255 * (255 - sa),
            0 < sa < 255,
    ;
    assert((da * (255 - sa) + 127) / 255 >= 0) by (nonlinear_arith)
        requires
            0 <= da * (255 - sa),
    ;
}

/// Source-over works channel by channel: each colour channel of the result
/// depends only on that channel of the source and the destination and on
/// the two alphas. Two pairs that agree there give the same channel.
pub proof fn lemma_source_over_channels_independent(s1: u32, d1: u32, s2: u32, d2: u32, shift: u32)
    requires
        shift == 0 || shift == 8 || shift == 16,
        channel_of(s1, 24) == channel_of(s2, 24),
        channel_of(d1, 24) == channel_of(d2, 24),
        channel_of(s1, shift) == channel_of(s2, shift),
        channel_of(d1, shift) == channel_of(d2, shift),
        channels_fit(s1, d1),
        channels_fit(s2, d2),
    ensures
        channel_of(source_over_spec(s1, d1), shift) == channel_of(source_over_spec(s2, d2), shift),
{
    let sa = channel_of(s1, 24) as int;
    let da = channel_of(d1, 24) as int;
    lemma_channel_byte(s1, 24);
    lemma_channel_byte(d1, 24);
    if 0 < sa < 255 {
        let oa = output_alpha(sa, da);
        lemma_output_alpha_byte(sa, da);
        let r1 = blend_channel(s1, d1, 16, sa, da, oa);
        let g1 = blend_channel(s1, d1, 8, sa, da, oa);
        let b1 = blend_channel(s1, d1, 0, sa, da, oa);
        let r2 = blend_channel(s2, d2, 16, sa, da, oa);
        let g2 = blend_channel(s2, d2, 8, sa, da, oa);
        let b2 = blend_channel(s2, d2, 0, sa, da, oa);
        lemma_unpack(oa as u32, r1 as u32, g1 as u32, b1 as u32);
        lemma_unpack(oa as u32, r2 as u32, g2 as u32, b2 as u32);
        assert(source_over_spec(s1, d1) == ((oa as u32) << 24u32) | ((r1 as u32) << 16u32) | ((g1 as u32) << 8u32) | (b1 as u32));
        assert(source_over_spec(s2, d2) == ((oa as u32) << 24u32) | ((r2 as u32) << 16u32) | ((g2 as u32) << 8u32) | (b2 as u32));
    }
}


proof fn lemma_blend_over_opaque(c_s: int, c_d: int, sa: int)
    requires
        0 <= c_s <= 255,
        0 <= c_d <= 255,
        0 < sa < 255,
    ensures
        0 <= (c_s * sa + (c_d * 255 * (255 - sa) + 127) / 255 + 127) / 255 <= 255,
{
    assert(0 <= c_s * sa <= 255 * sa) by (nonlinear_arith)
        requires
            0 <= c_s <= 255,
            0 < sa,
    ;
    assert(0 <= c_d * 255 * (255 - sa) <= 255 * 255 * (255 - sa)) by (nonlinear_arith)
        requires
            0 <= c_d <= 255,
            sa < 255,
    ;
    assert((c_d * 255 * (255 - sa) + 127) / 255 <= 255 * (255 - sa)) by (nonlinear_arith)
        requires
            0 <= c_d * 255 * (255 - sa) <= 255 * 255 * (255 - sa),
            sa < 255,
    ;
    assert((c_d * 255 * (255 - sa) + 127) / 255 >= 0) by (nonlinear_arith)
        requires
            0 <= c_d * 255 * (255 - sa),
    ;
}

/// Source-over onto an opaque destination stays opaque, and every channel
/// it blends fits its byte.
pub proof fn lemma_source_over_onto_opaque(source: u32, destination: u32)
    requires
        channel_of(destination, 24) == 255,
    ensures
        channels_fit(source, destination),
        channel_of(source_over_spec(source, destination), 24) == 255,
{
    let sa = channel_of(source, 24) as int;
    lemma_channel_byte(source, 24);
    lemma_channel_byte(source, 16);
    lemma_channel_byte(source, 8);
    lemma_channel_byte(source, 0);
    lemma_channel_byte(destination, 16);
    lemma_channel_byte(destination, 8);
    lemma_channel_byte(destination, 0);
    if 0 < sa < 255 {
        assert((255 * (255 - sa) + 127) / 255 == 255 - sa) by (nonlinear_arith)
            requires
                0 < sa < 255,
        ;
        assert(output_alpha(sa, 255) == 255);
        lemma_blend_over_opaque(channel_of(source, 16) as int, channel_of(destination, 16) as int, sa);
        lemma_blend_over_opaque(channel_of(source, 8) as int, channel_of(destination, 8) as int, sa);
        lemma_blend_over_opaque(channel_of(source, 0) as int, channel_of(destination, 0) as int, sa);
        assert(channels_fit(source, destination));
        let r = blend_channel(source, destination, 16, sa, 255, 255);
        let g = blend_channel(source, destination, 8, sa, 255, 255);
        let b = blend_channel(source, destination, 0, sa, 255, 255);
        lemma_unpack(255, r as u32, g as u32, b as u32);
        assert(source_over_spec(source, destination) == (255u32 << 24u32) | ((r as u32) << 16u32) | ((g as u32) << 8u32) | (b as u32));
    }
}

} // verus!
