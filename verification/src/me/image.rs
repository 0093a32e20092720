//! `javax.microedition.lcdui.Image` factory paths that turn encoded bytes into
//! pixels: `createImage(byte[], int, int)` and `createImage(String)`.
//!
//! The neutral [`Image`] owns the ARGB buffer and stays codec-free. The PNG
//! decode belongs to the device runtime: the game reads a packed byte buffer
//! (a sprite atlas, a merged PNG, a font sheet) and expects the MIDP contract —
//! an immutable image, or an exception on malformed data.
//!
//! Decoding folds paletted 1/2/4/8-bit PNGs (some with a `tRNS` chunk) into
//! straight 8-bit channels, packed `0xAARRGGBB`. Malformed or unsupported input
//! returns a typed [`JavaError`], never a panic: MIDP throws
//! `IllegalArgumentException` when the bytes are not a decodable image, and
//! `ArrayIndexOutOfBoundsException` when the region bounds are invalid.

use vstd::prelude::*;
use crate::canvas::{Image, ImageView};
use crate::jvm::JavaError;

verus! {

/// The channel layout of a decoded PNG frame.
#[derive(Clone, Copy, Debug, PartialEq, Eq, Structural)]
pub enum PngColor {
    Grayscale,
    Rgb,
    Indexed,
    GrayscaleAlpha,
    Rgba,
}

/// The decoding step that refused the bytes.
#[derive(Clone, Copy, Debug, PartialEq, Eq, Structural)]
pub enum PngStage {
    /// The signature or the header chunks.
    Header,
    /// The image data of the first frame.
    Frame,
}

/// One decoded frame: its size, its channel layout and its samples, 8 bits
/// each, row after row.
#[derive(Debug)]
pub struct PngFrame {
    pub width: u32,
    pub height: u32,
    pub color: PngColor,
    pub data: Vec<u8>,
}

/// What the `png` crate decodes `bytes` to, with palettes and `tRNS` expanded
/// and 16-bit samples stripped to 8: the frame's width, height, channel
/// layout and samples, or the step that failed.
pub uninterp spec fn png_decoded(bytes: Seq<u8>) -> Result<(u32, u32, PngColor, Seq<u8>), PngStage>;

/// `png::Decoder` with `Transformations::EXPAND | STRIP_16`, then `read_info`
/// and `next_frame`: the first frame, cut to the size its `OutputInfo` gives.
/// What it decodes is named by `png_decoded`.
#[verifier::external_body]
fn png_decode(bytes: &[u8]) -> (r: Result<PngFrame, PngStage>)
    ensures
        match png_decoded(bytes@) {
            Ok((w, h, c, d)) => r matches Ok(f) && f.width == w && f.height == h && f.color == c && f.data@ == d,
            Err(stage) => r == Err::<PngFrame, PngStage>(stage),
        },
{
    let mut decoder = png::Decoder::new(bytes);
    decoder.set_transformations(png::Transformations::EXPAND | png::Transformations::STRIP_16);
    let Ok(mut reader) = decoder.read_info() else { return Err(PngStage::Header) };
    let mut data = vec![0u8; reader.output_buffer_size()];
    let Ok(info) = reader.next_frame(&mut data) else { return Err(PngStage::Frame) };
    data.truncate(info.buffer_size());
    let color = match info.color_type {
        png::ColorType::Grayscale => PngColor::Grayscale,
        png::ColorType::Rgb => PngColor::Rgb,
        png::ColorType::Indexed => PngColor::Indexed,
        png::ColorType::GrayscaleAlpha => PngColor::GrayscaleAlpha,
        png::ColorType::Rgba => PngColor::Rgba,
    };
    Ok(PngFrame { width: info.width, height: info.height, color, data })
}

/// Straight 8-bit channels packed into `0xAARRGGBB`.
pub open spec fn pack_spec(a: u8, r: u8, g: u8, b: u8) -> u32 {
    (a as int * 0x100_0000 + r as int * 0x1_0000 + g as int * 0x100 + b as int) as u32
}

fn pack(a: u8, r: u8, g: u8, b: u8) -> (p: u32)
    ensures
        p == pack_spec(a, r, g, b),
{
    a as u32 * 0x100_0000 + r as u32 * 0x1_0000 + g as u32 * 0x100 + b as u32
}

/// The ARGB pixels a frame's samples make: whole pixels only, a trailing
/// partial one dropped; `None` for a paletted frame, which expansion should
/// have removed.
pub open spec fn frame_pixels(color: PngColor, d: Seq<u8>) -> Option<Seq<u32>> {
    match color {
        PngColor::Rgba => Some(Seq::new(d.len() / 4, |i: int| pack_spec(d[4 * i + 3], d[4 * i], d[4 * i + 1], d[4 * i + 2]))),
        PngColor::Rgb => Some(Seq::new(d.len() / 3, |i: int| pack_spec(0xFF, d[3 * i], d[3 * i + 1], d[3 * i + 2]))),
        PngColor::GrayscaleAlpha => Some(Seq::new(d.len() / 2, |i: int| pack_spec(d[2 * i + 1], d[2 * i], d[2 * i], d[2 * i]))),
        PngColor::Grayscale => Some(Seq::new(d.len(), |i: int| pack_spec(0xFF, d[i], d[i], d[i]))),
        PngColor::Indexed => None,
    }
}

fn pack_frame(color: PngColor, d: &[u8]) -> (r: Option<Vec<u32>>)
    ensures
        match frame_pixels(color, d@) {
            Some(p) => r matches Some(v) && v@ == p,
            None => r is None,
        },
{
    let mut out: Vec<u32> = Vec::new();
    match color {
        PngColor::Rgba => {
            let n = d.len() / 4;
            assert(4 * n <= d@.len()) by (nonlinear_arith)
                requires
                    n == d@.len() / 4,
            ;
            let mut i: usize = 0;
            while i < n
                invariant
                    n == d@.len() / 4,
                    4 * n <= d@.len(),
                    d@.len() == d.len(),
                    i <= n,
                    out@.len() == i,
                    forall|j: int| 0 <= j < i ==> out@[j] == pack_spec(d@[4 * j + 3], d@[4 * j], d@[4 * j + 1], d@[4 * j + 2]),
                decreases n - i,
            {
                out.push(pack(d[4 * i + 3], d[4 * i], d[4 * i + 1], d[4 * i + 2]));
                i += 1;
            }
        },
        PngColor::Rgb => {
            let n = d.len() / 3;
            assert(3 * n <= d@.len()) by (nonlinear_arith)
                requires
                    n == d@.len() / 3,
            ;
            let mut i: usize = 0;
            while i < n
                invariant
                    n == d@.len() / 3,
                    3 * n <= d@.len(),
                    d@.len() == d.len(),
                    i <= n,
                    out@.len() == i,
                    forall|j: int| 0 <= j < i ==> out@[j] == pack_spec(0xFF, d@[3 * j], d@[3 * j + 1], d@[3 * j + 2]),
                decreases n - i,
            {
                out.push(pack(0xFF, d[3 * i], d[3 * i + 1], d[3 * i + 2]));
                i += 1;
            }
        },
        PngColor::GrayscaleAlpha => {
            let n = d.len() / 2;
            assert(2 * n <= d@.len()) by (nonlinear_arith)
                requires
                    n == d@.len() / 2,
            ;
            let mut i: usize = 0;
            while i < n
                invariant
                    n == d@.len() / 2,
                    2 * n <= d@.len(),
                    d@.len() == d.len(),
                    i <= n,
                    out@.len() == i,
                    forall|j: int| 0 <= j < i ==> out@[j] == pack_spec(d@[2 * j + 1], d@[2 * j], d@[2 * j], d@[2 * j]),
                decreases n - i,
            {
                out.push(pack(d[2 * i + 1], d[2 * i], d[2 * i], d[2 * i]));
                i += 1;
            }
        },
        PngColor::Grayscale => {
            let mut i: usize = 0;
            while i < d.len()
                invariant
                    i <= d@.len(),
                    out@.len() == i,
                    forall|j: int| 0 <= j < i ==> out@[j] == pack_spec(0xFF, d@[j], d@[j], d@[j]),
                decreases d@.len() - i,
            {
                out.push(pack(0xFF, d[i], d[i], d[i]));
                i += 1;
            }
        },
        PngColor::Indexed => {
            return None;
        },
    }
    proof {
        assert(out@ =~= frame_pixels(color, d@)->0);
    }
    Some(out)
}

/// What a decoded frame makes: the immutable image, or the
/// `IllegalArgumentException` it raises.
pub open spec fn frame_image(w: u32, h: u32, color: PngColor, d: Seq<u8>) -> Result<ImageView, JavaError> {
    if w == 0 || h == 0 {
        Err(JavaError::IllegalArgument("createImage: degenerate 0-size image"))
    } else if w * h > i32::MAX || w > i32::MAX || h > i32::MAX {
        Err(JavaError::IllegalArgument("createImage: image too large for i32"))
    } else if frame_pixels(color, d) is None {
        Err(JavaError::IllegalArgument("createImage: paletted PNG not expanded"))
    } else if frame_pixels(color, d)->0.len() != w * h {
        Err(JavaError::IllegalArgument("createImage: decoded pixel count mismatch"))
    } else {
        Ok(ImageView { width: w as int, height: h as int, pixels: frame_pixels(color, d)->0, mutable: false })
    }
}

/// The image a decoded frame makes, or the `IllegalArgumentException` for a
/// frame that is empty, too large for Java's `int` coordinates, still
/// paletted, or short of pixels.
pub fn image_from_frame(frame: PngFrame) -> (r: Result<Image, JavaError>)
    ensures
        match frame_image(frame.width, frame.height, frame.color, frame.data@) {
            Ok(v) => r matches Ok(img) && img.wf() && img@ == v,
            Err(e) => r == Err::<Image, JavaError>(e),
        },
{
    let (w, h) = (frame.width, frame.height);
    if w == 0 || h == 0 {
        return Err(JavaError::IllegalArgument("createImage: degenerate 0-size image"));
    }
    if w > 0x7fff_ffff || h > 0x7fff_ffff {
        return Err(JavaError::IllegalArgument("createImage: image too large for i32"));
    }
    assert((w as u64) * (h as u64) <= 0x3fff_ffff_0000_0001) by (nonlinear_arith)
        requires
            w <= 0x7fff_ffff,
            h <= 0x7fff_ffff,
    ;
    if (w as u64) * (h as u64) > 0x7fff_ffff {
        return Err(JavaError::IllegalArgument("createImage: image too large for i32"));
    }
    let px = (w as u64 * h as u64) as usize;
    let argb = match pack_frame(frame.color, &frame.data) {
        Some(argb) => argb,
        None => return Err(JavaError::IllegalArgument("createImage: paletted PNG not expanded")),
    };
    if argb.len() != px {
        return Err(JavaError::IllegalArgument("createImage: decoded pixel count mismatch"));
    }
    match Image::from_argb(w as i32, h as i32, argb) {
        Ok(img) => Ok(img),
        Err(_) => Err(JavaError::IllegalArgument("createImage: pixel buffer construction failed")),
    }
}

/// Decode PNG bytes into an immutable ARGB image; any decode failure is an
/// `IllegalArgumentException`.
fn decode_png(bytes: &[u8]) -> (r: Result<Image, JavaError>)
    ensures
        match png_decoded(bytes@) {
            Err(PngStage::Header) => r == Err::<Image, JavaError>(
                JavaError::IllegalArgument("createImage: not a decodable PNG (header)"),
            ),
            Err(PngStage::Frame) => r == Err::<Image, JavaError>(
                JavaError::IllegalArgument("createImage: not a decodable PNG (frame)"),
            ),
            Ok((w, h, c, d)) => match frame_image(w, h, c, d) {
                Ok(v) => r matches Ok(img) && img.wf() && img@ == v,
                Err(e) => r == Err::<Image, JavaError>(e),
            },
        },
{
    match png_decode(bytes) {
        Err(PngStage::Header) => Err(JavaError::IllegalArgument("createImage: not a decodable PNG (header)")),
        Err(PngStage::Frame) => Err(JavaError::IllegalArgument("createImage: not a decodable PNG (frame)")),
        Ok(frame) => image_from_frame(frame),
    }
}

/// Java's signed bytes as the octets they stand for.
pub open spec fn octets(s: Seq<i8>) -> Seq<u8> {
    s.map(|i: int, b: i8| b as u8)
}

fn octets_of(s: &[i8], from: usize, to: usize) -> (r: Vec<u8>)
    requires
        from <= to <= s@.len(),
    ensures
        r@ == octets(s@.subrange(from as int, to as int)),
{
    let mut out: Vec<u8> = Vec::new();
    let mut i = from;
    while i < to
        invariant
            from <= i <= to <= s@.len(),
            out@ == octets(s@.subrange(from as int, i as int)),
        decreases to - i,
    {
        out.push(s[i] as u8);
        i += 1;
        assert(out@ =~= octets(s@.subrange(from as int, i as int)));
    }
    out
}

/// What decoding `bytes` gives: the image, or the exception.
pub open spec fn decoded_image(bytes: Seq<u8>) -> Result<ImageView, JavaError> {
    match png_decoded(bytes) {
        Err(PngStage::Header) => Err(JavaError::IllegalArgument("createImage: not a decodable PNG (header)")),
        Err(PngStage::Frame) => Err(JavaError::IllegalArgument("createImage: not a decodable PNG (frame)")),
        Ok((w, h, c, d)) => frame_image(w, h, c, d),
    }
}

/// `Image.createImage(byte[] imageData, int imageOffset, int imageLength)`:
/// decode the `[offset, offset + length)` slice of the buffer. A negative
/// offset or length, or a slice past the end, is an
/// `ArrayIndexOutOfBoundsException` naming the offset (when negative) or the
/// slice's end.
pub fn create_image_region(image_data: &[i8], image_offset: i32, image_length: i32) -> (r: Result<Image, JavaError>)
    requires
        image_data@.len() <= i32::MAX,
    ensures
        image_offset < 0 || image_length < 0 || image_offset + image_length > image_data@.len() ==> r
            == Err::<Image, JavaError>(
            JavaError::ArrayIndexOutOfBounds {
                index: if image_offset < 0 {
                    image_offset
                } else {
                    image_offset.wrapping_add(image_length)
                },
                length: image_data@.len() as i32,
            },
        ),
        !(image_offset < 0 || image_length < 0 || image_offset + image_length > image_data@.len()) ==> match decoded_image(
            octets(image_data@.subrange(image_offset as int, image_offset + image_length)),
        ) {
            Ok(v) => r matches Ok(img) && img.wf() && img@ == v,
            Err(e) => r == Err::<Image, JavaError>(e),
        },
{
    let len = image_data.len() as i64;
    let off = image_offset as i64;
    let n = image_length as i64;
    if image_offset < 0 || image_length < 0 || off + n > len {
        return Err(
            JavaError::ArrayIndexOutOfBounds {
                index: if image_offset < 0 {
                    image_offset
                } else {
                    image_offset.wrapping_add(image_length)
                },
                length: image_data.len() as i32,
            },
        );
    }
    let start = image_offset as usize;
    let end = start + image_length as usize;
    let bytes = octets_of(image_data, start, end);
    decode_png(&bytes)
}

/// The host resource seam behind `Image.createImage(String name)`: a real
/// MIDP runtime resolves the name against the JAR classpath; here the host
/// supplies the bytes for a name (the game's signed octets), or `None` when
/// absent.
pub trait ImageResources {
    /// Resolve a resource name (e.g. `"/en/font.png"`) to its raw bytes, or
    /// `None` if no such resource exists.
    /// The bytes the host holds for a resource name, if any.
    closed spec fn resource_of(&self, name: Seq<char>) -> Option<Seq<i8>> {
        arbitrary()
    }

    fn load(&self, name: &str) -> (r: Option<Vec<i8>>)
        ensures
            match self.resource_of(name@) {
                Some(bytes) => r matches Some(v) && v@ == bytes,
                None => r is None,
            },
    ;
}

/// `createImage(String name)` once the resource lookup has answered: an
/// absent resource is an `IOException` naming it, present bytes decode.
pub fn image_from_resource(name: &str, data: Option<Vec<i8>>) -> (r: Result<Image, JavaError>)
    ensures
        match data {
            None => r matches Err(JavaError::Io(m)) && m@ == "createImage: resource not found: "@ + name@,
            Some(bytes) => match decoded_image(octets(bytes@)) {
                Ok(v) => r matches Ok(img) && img.wf() && img@ == v,
                Err(e) => r == Err::<Image, JavaError>(e),
            },
        },
{
    match data {
        None => {
            let mut m = String::from_str("createImage: resource not found: ");
            m.append(name);
            Err(JavaError::Io(m))
        },
        Some(bytes) => {
            let octets = octets_of(&bytes, 0, bytes.len());
            proof {
                assert(bytes@.subrange(0, bytes@.len() as int) =~= bytes@);
            }
            decode_png(&octets)
        },
    }
}

/// `Image.createImage(String name)`: load a named resource through the host
/// seam and decode it. What the seam answers decides the outcome, as
/// [`image_from_resource`] states; whatever it answers, an error is an
/// `IOException` or an `IllegalArgumentException`.
pub fn create_image_named<R: ImageResources>(name: &str, resources: &R) -> (r: Result<Image, JavaError>)
    ensures
        r matches Ok(img) ==> img.wf() && !img@.mutable,
        r matches Err(e) ==> (e is Io || e is IllegalArgument),
        match resources.resource_of(name@) {
            None => r matches Err(JavaError::Io(m)) && m@ == "createImage: resource not found: "@ + name@,
            Some(bytes) => match decoded_image(octets(bytes)) {
                Ok(v) => r matches Ok(img) && img.wf() && img@ == v,
                Err(e) => r == Err::<Image, JavaError>(e),
            },
        },
{
    let data = resources.load(name);
    image_from_resource(name, data)
}

} // verus!
