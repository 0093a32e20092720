use j2me_kit::jvm::JavaError;
use j2me_kit::me::image::{
    create_image_named, create_image_region, image_from_frame, image_from_resource, ImageResources, PngColor,
    PngFrame,
};

fn rgba_png(w: u32, h: u32, rgba: &[u8]) -> Vec<i8> {
    let mut out = Vec::new();
    {
        let mut enc = png::Encoder::new(&mut out, w, h);
        enc.set_color(png::ColorType::Rgba);
        enc.set_depth(png::BitDepth::Eight);
        let mut writer = enc.write_header().unwrap();
        writer.write_image_data(rgba).unwrap();
    }
    out.into_iter().map(|b| b as i8).collect()
}

#[test]
fn create_image_region_decodes_rgba_into_argb() {
    let png = rgba_png(2, 1, &[255, 0, 0, 255, 0, 255, 0, 128]);
    let img = create_image_region(&png, 0, png.len() as i32).unwrap();
    assert_eq!((img.width(), img.height()), (2, 1));
    assert!(!img.is_mutable(), "a decoded image is immutable");
    assert_eq!(img.get(0, 0), Some(0xFFFF_0000));
    assert_eq!(img.get(1, 0), Some(0x8000_FF00));
}

#[test]
fn create_image_decodes_paletted_with_trns_via_expand() {
    let mut out = Vec::new();
    {
        let mut enc = png::Encoder::new(&mut out, 2, 2);
        enc.set_color(png::ColorType::Indexed);
        enc.set_depth(png::BitDepth::Eight);
        enc.set_palette(vec![255, 0, 0, 0, 0, 255]);
        enc.set_trns(vec![0x00, 0xFF]);
        let mut writer = enc.write_header().unwrap();
        writer.write_image_data(&[0, 1, 1, 0]).unwrap();
    }
    let bytes: Vec<i8> = out.into_iter().map(|b| b as i8).collect();
    let img = create_image_region(&bytes, 0, bytes.len() as i32).unwrap();
    assert_eq!((img.width(), img.height()), (2, 2));
    assert_eq!(img.get(0, 0), Some(0x00FF_0000));
    assert_eq!(img.get(1, 0), Some(0xFF00_00FF));
}

#[test]
fn create_image_rejects_non_png_without_panicking() {
    let bytes: Vec<i8> = b"definitely not a png".iter().map(|&b| b as i8).collect();
    assert_eq!(
        create_image_region(&bytes, 0, bytes.len() as i32).err(),
        Some(JavaError::IllegalArgument("createImage: not a decodable PNG (header)"))
    );
}

#[test]
fn create_image_region_decodes_an_embedded_slice() {
    let png = rgba_png(1, 1, &[10, 20, 30, 255]);
    let real_len = png.len() as i32;
    let mut padded = png.clone();
    padded.extend(std::iter::repeat_n(0i8, 37));
    let img = create_image_region(&padded, 0, real_len).unwrap();
    assert_eq!((img.width(), img.height()), (1, 1));
    assert_eq!(img.get(0, 0), Some(0xFF0A_141E));
}

#[test]
fn create_image_region_offset_slice_matches_whole() {
    let png = rgba_png(1, 1, &[9, 8, 7, 255]);
    let mut buf: Vec<i8> = vec![-1, -2, -3, -4];
    let off = buf.len() as i32;
    let n = png.len() as i32;
    buf.extend_from_slice(&png);
    let img = create_image_region(&buf, off, n).unwrap();
    assert_eq!(img.get(0, 0), Some(0xFF09_0807));
}

#[test]
fn create_image_region_rejects_out_of_range_bounds() {
    let png = rgba_png(1, 1, &[0, 0, 0, 255]);
    assert!(matches!(create_image_region(&png, -1, 4), Err(JavaError::ArrayIndexOutOfBounds { .. })));
    assert!(matches!(create_image_region(&png, 0, -1), Err(JavaError::ArrayIndexOutOfBounds { .. })));
    assert!(matches!(
        create_image_region(&png, 2, png.len() as i32),
        Err(JavaError::ArrayIndexOutOfBounds { .. })
    ));
    let len = png.len() as i32;
    assert_eq!(
        create_image_region(&png, 2, len).err(),
        Some(JavaError::ArrayIndexOutOfBounds { index: len + 2, length: len })
    );
    assert_eq!(
        create_image_region(&png, i32::MAX, 1).err(),
        Some(JavaError::ArrayIndexOutOfBounds { index: i32::MIN, length: len })
    );
}

struct Res(Vec<i8>);

impl ImageResources for Res {
    fn load(&self, name: &str) -> Option<Vec<i8>> {
        if name == "/en/font.png" {
            Some(self.0.clone())
        } else {
            None
        }
    }
}

#[test]
fn create_image_named_decodes_present_and_errors_on_missing() {
    let png = rgba_png(1, 1, &[1, 2, 3, 255]);
    let res = Res(png);
    let img = create_image_named("/en/font.png", &res).unwrap();
    assert_eq!(img.get(0, 0), Some(0xFF01_0203));
    assert!(matches!(create_image_named("/de/missing.png", &res), Err(JavaError::Io(_))));
    assert_eq!(
        image_from_resource("/x.png", None).err(),
        Some(JavaError::Io("createImage: resource not found: /x.png".to_string()))
    );
}

#[test]
fn frames_pack_each_channel_layout() {
    let gray = PngFrame { width: 2, height: 1, color: PngColor::Grayscale, data: vec![0x10, 0x20] };
    let img = image_from_frame(gray).unwrap();
    assert_eq!(img.get(0, 0), Some(0xFF10_1010));
    assert_eq!(img.get(1, 0), Some(0xFF20_2020));
    let ga = PngFrame { width: 1, height: 1, color: PngColor::GrayscaleAlpha, data: vec![0x33, 0x80] };
    assert_eq!(image_from_frame(ga).unwrap().get(0, 0), Some(0x8033_3333));
    let rgb = PngFrame { width: 1, height: 1, color: PngColor::Rgb, data: vec![1, 2, 3] };
    assert_eq!(image_from_frame(rgb).unwrap().get(0, 0), Some(0xFF01_0203));
}

#[test]
fn frames_that_cannot_be_images_are_illegal_arguments() {
    let empty = PngFrame { width: 0, height: 1, color: PngColor::Rgb, data: vec![] };
    assert_eq!(
        image_from_frame(empty).err(),
        Some(JavaError::IllegalArgument("createImage: degenerate 0-size image"))
    );
    let huge = PngFrame { width: 0x10000, height: 0x10000, color: PngColor::Rgb, data: vec![] };
    assert_eq!(
        image_from_frame(huge).err(),
        Some(JavaError::IllegalArgument("createImage: image too large for i32"))
    );
    let paletted = PngFrame { width: 1, height: 1, color: PngColor::Indexed, data: vec![0] };
    assert_eq!(
        image_from_frame(paletted).err(),
        Some(JavaError::IllegalArgument("createImage: paletted PNG not expanded"))
    );
    let short = PngFrame { width: 2, height: 1, color: PngColor::Rgba, data: vec![1, 2, 3, 4, 5] };
    assert_eq!(
        image_from_frame(short).err(),
        Some(JavaError::IllegalArgument("createImage: decoded pixel count mismatch"))
    );
}
