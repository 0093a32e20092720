//! Integer-only 2D canvas placement and host pixel projection.

use vstd::prelude::*;

verus! {

#[derive(Debug, Clone, Copy, PartialEq, Eq, Structural)]
pub struct Rect {
    pub x: u32,
    pub y: u32,
    pub width: u32,
    pub height: u32,
}

#[derive(Debug, Clone, Copy, PartialEq, Eq, Structural)]
pub struct CanvasPlacement {
    /// Integer magnification. Cropped canvases always use scale 1.
    pub scale: u32,
    /// Logical source rectangle sampled from the Java canvas.
    pub source: Rect,
    /// Physical output rectangle centered in the viewport.
    pub destination: Rect,
}

#[derive(Debug, Clone, Copy, PartialEq, Eq, Structural)]
pub enum PresentationError {
    ZeroDimension,
    PixelCountMismatch { expected: usize, actual: usize },
    CropOutsideImage,
    SizeOverflow,
}

/// The placement of a logical canvas in a viewport: magnified by the
/// largest integer that fits and centered when the viewport holds the
/// canvas, else center-cropped at scale 1.
pub open spec fn placement_spec(lw: u32, lh: u32, vw: u32, vh: u32) -> CanvasPlacement {
    if vw >= lw && vh >= lh {
        let a = vw / lw;
        let b = vh / lh;
        let m = if a < b { a } else { b };
        let scale = if m < 1 { 1 } else { m };
        let width = (lw * scale) as u32;
        let height = (lh * scale) as u32;
        CanvasPlacement {
            scale: scale as u32,
            source: Rect { x: 0, y: 0, width: lw, height: lh },
            destination: Rect { x: ((vw - width) / 2) as u32, y: ((vh - height) / 2) as u32, width, height },
        }
    } else {
        let width = if lw < vw { lw } else { vw };
        let height = if lh < vh { lh } else { vh };
        CanvasPlacement {
            scale: 1,
            source: Rect { x: ((lw - width) / 2) as u32, y: ((lh - height) / 2) as u32, width, height },
            destination: Rect { x: ((vw - width) / 2) as u32, y: ((vh - height) / 2) as u32, width, height },
        }
    }
}

impl CanvasPlacement {
    /// Where a `logical_width` by `logical_height` canvas goes in a viewport;
    /// any zero dimension is refused.
    pub fn centered(logical_width: u32, logical_height: u32, viewport_width: u32, viewport_height: u32) -> (r: Result<
        Self,
        PresentationError,
    >)
        ensures
            logical_width == 0 || logical_height == 0 || viewport_width == 0 || viewport_height == 0 ==> r
                == Err::<Self, PresentationError>(PresentationError::ZeroDimension),
            !(logical_width == 0 || logical_height == 0 || viewport_width == 0 || viewport_height == 0) ==> r
                == Ok::<Self, PresentationError>(
                placement_spec(logical_width, logical_height, viewport_width, viewport_height),
            ),
    {
        if logical_width == 0 || logical_height == 0 || viewport_width == 0 || viewport_height == 0 {
            return Err(PresentationError::ZeroDimension);
        }
        if viewport_width >= logical_width && viewport_height >= logical_height {
            let a = viewport_width / logical_width;
            let b = viewport_height / logical_height;
            let m = if a < b { a } else { b };
            let scale = if m < 1 { 1 } else { m };
            assert(a >= 1 && b >= 1) by (nonlinear_arith)
                requires
                    viewport_width >= logical_width > 0,
                    viewport_height >= logical_height > 0,
                    a == viewport_width / logical_width,
                    b == viewport_height / logical_height,
            ;
            assert(logical_width * scale <= viewport_width && logical_height * scale <= viewport_height) by (nonlinear_arith)
                requires
                    logical_width > 0,
                    logical_height > 0,
                    a == viewport_width / logical_width,
                    b == viewport_height / logical_height,
                    1 <= scale,
                    scale <= a,
                    scale <= b,
            ;
            let width = logical_width * scale;
            let height = logical_height * scale;
            Ok(
                CanvasPlacement {
                    scale,
                    source: Rect { x: 0, y: 0, width: logical_width, height: logical_height },
                    destination: Rect {
                        x: (viewport_width - width) / 2,
                        y: (viewport_height - height) / 2,
                        width,
                        height,
                    },
                },
            )
        } else {
            let width = if logical_width < viewport_width { logical_width } else { viewport_width };
            let height = if logical_height < viewport_height { logical_height } else { viewport_height };
            Ok(
                CanvasPlacement {
                    scale: 1,
                    source: Rect {
                        x: (logical_width - width) / 2,
                        y: (logical_height - height) / 2,
                        width,
                        height,
                    },
                    destination: Rect {
                        x: (viewport_width - width) / 2,
                        y: (viewport_height - height) / 2,
                        width,
                        height,
                    },
                },
            )
        }
    }
}

/// One ARGB pixel as RGBA bytes.
pub open spec fn rgba_of(argb: u32) -> Seq<u8> {
    seq![((argb >> 16) & 0xff) as u8, ((argb >> 8) & 0xff) as u8, (argb & 0xff) as u8, ((argb >> 24) & 0xff) as u8]
}

/// The RGBA bytes of the first `n` pixels of row `y` from column `x0`.
pub open spec fn row_rgba(pixels: Seq<u32>, width: int, y: int, x0: int, n: nat) -> Seq<u8>
    decreases n,
{
    if n == 0 {
        Seq::empty()
    } else {
        row_rgba(pixels, width, y, x0, (n - 1) as nat) + rgba_of(pixels[y * width + x0 + n - 1])
    }
}

/// The RGBA bytes of the first `m` rows of the crop.
pub open spec fn crop_rgba(pixels: Seq<u32>, width: int, crop: Rect, m: nat) -> Seq<u8>
    decreases m,
{
    if m == 0 {
        Seq::empty()
    } else {
        crop_rgba(pixels, width, crop, (m - 1) as nat) + row_rgba(pixels, width, crop.y + m - 1, crop.x as int, crop.width as nat)
    }
}

/// Crop a Java ARGB canvas and convert it to byte-packed RGBA for host APIs.
/// The buffer must hold exactly `image_width * image_height` pixels, and the
/// crop must be non-empty and inside the image.
pub fn argb_to_rgba_cropped(pixels: &[u32], image_width: u32, image_height: u32, crop: Rect) -> (r: Result<
    Vec<u8>,
    PresentationError,
>)
    ensures
        image_width * image_height > usize::MAX ==> r == Err::<Vec<u8>, PresentationError>(
            PresentationError::SizeOverflow,
        ),
        image_width * image_height <= usize::MAX && pixels@.len() != image_width * image_height ==> r == Err::<
            Vec<u8>,
            PresentationError,
        >(
            PresentationError::PixelCountMismatch {
                expected: (image_width * image_height) as usize,
                actual: pixels@.len() as usize,
            },
        ),
        pixels@.len() == image_width * image_height && (crop.x + crop.width > u32::MAX || crop.y + crop.height
            > u32::MAX) ==> r == Err::<Vec<u8>, PresentationError>(PresentationError::SizeOverflow),
        pixels@.len() == image_width * image_height && crop.x + crop.width <= u32::MAX && crop.y + crop.height
            <= u32::MAX && (crop.width == 0 || crop.height == 0 || crop.x + crop.width > image_width || crop.y
            + crop.height > image_height) ==> r == Err::<Vec<u8>, PresentationError>(
            PresentationError::CropOutsideImage,
        ),
        pixels@.len() == image_width * image_height && !(crop.width == 0 || crop.height == 0 || crop.x + crop.width
            > image_width || crop.y + crop.height > image_height) && crop.width * crop.height * 4 > usize::MAX
            ==> r == Err::<Vec<u8>, PresentationError>(PresentationError::SizeOverflow),
        pixels@.len() == image_width * image_height && !(crop.width == 0 || crop.height == 0 || crop.x + crop.width
            > image_width || crop.y + crop.height > image_height) && crop.width * crop.height * 4 <= usize::MAX
            ==> (r matches Ok(out) && out@ == crop_rgba(pixels@, image_width as int, crop, crop.height as nat)),
{
    let len = pixels.len();
    assert(len == pixels@.len());
    let expected = match (image_width as usize).checked_mul(image_height as usize) {
        Some(n) => n,
        None => return Err(PresentationError::SizeOverflow),
    };
    if pixels.len() != expected {
        return Err(PresentationError::PixelCountMismatch { expected, actual: pixels.len() });
    }
    let end_x = match crop.x.checked_add(crop.width) {
        Some(e) => e,
        None => return Err(PresentationError::SizeOverflow),
    };
    let end_y = match crop.y.checked_add(crop.height) {
        Some(e) => e,
        None => return Err(PresentationError::SizeOverflow),
    };
    if crop.width == 0 || crop.height == 0 || end_x > image_width || end_y > image_height {
        return Err(PresentationError::CropOutsideImage);
    }
    let count = match (crop.width as usize).checked_mul(crop.height as usize) {
        Some(n) => n,
        None => return Err(PresentationError::SizeOverflow),
    };
    if count.checked_mul(4).is_none() {
        return Err(PresentationError::SizeOverflow);
    }
    let w = image_width as usize;
    let mut output: Vec<u8> = Vec::new();
    let mut y = crop.y;
    while y < end_y
        invariant
            crop.y <= y <= end_y == crop.y + crop.height <= image_height,
            end_x == crop.x + crop.width <= image_width,
            w == image_width,
            pixels@.len() == image_width * image_height,
            pixels@.len() <= usize::MAX,
            output@ == crop_rgba(pixels@, w as int, crop, (y - crop.y) as nat),
        decreases end_y - y,
    {
        let mut x = crop.x;
        while x < end_x
            invariant
                crop.y <= y < end_y == crop.y + crop.height <= image_height,
                crop.x <= x <= end_x == crop.x + crop.width <= image_width,
                w == image_width,
                pixels@.len() == image_width * image_height,
                pixels@.len() <= usize::MAX,
                output@ == crop_rgba(pixels@, w as int, crop, (y - crop.y) as nat) + row_rgba(
                    pixels@,
                    w as int,
                    y as int,
                    crop.x as int,
                    (x - crop.x) as nat,
                ),
            decreases end_x - x,
        {
            assert((y as int) * (w as int) + (x as int) < (image_height as int) * (image_width as int)) by (nonlinear_arith)
                requires
                    y < image_height,
                    x < image_width,
                    w == image_width,
            ;
            assert((y as int) * (w as int) <= (y as int) * (w as int) + (x as int));
            let index = (y as usize) * w + (x as usize);
            let argb = pixels[index];
            let ghost before = output@;
            output.push(((argb >> 16) & 0xff) as u8);
            output.push(((argb >> 8) & 0xff) as u8);
            output.push((argb & 0xff) as u8);
            output.push(((argb >> 24) & 0xff) as u8);
            proof {
                assert(output@ =~= before + rgba_of(argb));
                let n = (x + 1 - crop.x) as nat;
                assert(row_rgba(pixels@, w as int, y as int, crop.x as int, n) == row_rgba(
                    pixels@,
                    w as int,
                    y as int,
                    crop.x as int,
                    (n - 1) as nat,
                ) + rgba_of(pixels@[y * w + crop.x + n - 1]));
            }
            x += 1;
        }
        y += 1;
    }
    Ok(output)
}

} // verus!
