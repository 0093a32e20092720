use j2me_kit::canvas::{source_over, Image, ImageError};

#[test]
fn dimensions_and_pixel_counts_are_bounded() {
    assert_eq!(
        Image::create_mutable(0, 1),
        Err(ImageError::InvalidDimensions)
    );
    assert_eq!(
        Image::from_argb(2, 2, vec![0; 3]),
        Err(ImageError::PixelCountMismatch {
            expected: 4,
            actual: 3,
        })
    );
}

#[test]
fn writes_clip_and_alpha_blends() {
    let mut image = Image::create_mutable(2, 2).unwrap();
    image.set(-1, 0, 0xff00_0000);
    assert_eq!(image.get(0, 0), Some(0xffff_ffff));
    image.set(0, 0, 0xff00_00ff);
    image.blend(0, 0, 0x80ff_0000);
    let output = image.get(0, 0).unwrap();
    assert_eq!(output >> 24, 0xff);
    assert!((output >> 16) & 0xff >= 0x7f);
    assert!(output & 0xff >= 0x7f);
}

#[test]
fn transparent_destination_keeps_straight_source_color() {
    assert_eq!(source_over(0x80ff_0000, 0), 0x80ff_0000);
}
