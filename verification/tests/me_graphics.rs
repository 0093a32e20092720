use j2me_kit::canvas::Image;
use j2me_kit::me::font::FontSpec;
use j2me_kit::me::graphics::{
    anchor_top_left, Graphics, GraphicsError, HCENTER, LEFT, RIGHT, TOP, TOP_LEFT, BOTTOM, VCENTER,
};

#[test]
fn font_state_defaults_sets_and_resets_on_null() {
    let mut image = Image::create_mutable(2, 2).unwrap();
    let custom = FontSpec {
        face: 64,
        style: 1 | 2,
        size: 16,
    };
    {
        let mut graphics = Graphics::new(&mut image);
        assert_eq!(graphics.font(), FontSpec::default_font());
        graphics.set_font(Some(custom));
        assert_eq!(graphics.font(), custom);
        graphics.set_font(None);
        assert_eq!(graphics.font(), FontSpec::default_font());
    }

    // A second Graphics over the same target is a fresh Java context; font
    // state belongs to Graphics, not Image.
    let graphics = Graphics::new(&mut image);
    assert_eq!(graphics.font(), FontSpec::default_font());
}

#[test]
fn fill_and_line_respect_clip() {
    let mut image = Image::create_mutable(5, 4).unwrap();
    {
        let mut graphics = Graphics::new(&mut image);
        graphics.set_color(0x123456);
        graphics.set_clip(1, 1, 3, 2);
        graphics.fill_rect(-10, -10, 30, 30);
    }
    assert_eq!(image.get(1, 1), Some(0xff12_3456));
    assert_eq!(image.get(3, 2), Some(0xff12_3456));
    assert_eq!(image.get(0, 0), Some(0xffff_ffff));
}

#[test]
fn image_anchor_and_transform_are_explicit() {
    let source = Image::from_argb(2, 1, vec![0xffff_0000, 0xff00_00ff]).unwrap();
    let mut target = Image::create_mutable(4, 3).unwrap();
    {
        let mut graphics = Graphics::new(&mut target);
        graphics.draw_image(&source, 3, 0, RIGHT | TOP).unwrap();
        graphics
            .draw_region_raw(&source, 0, 0, 2, 1, 5, 0, 1, LEFT | TOP)
            .unwrap();
    }
    assert_eq!(target.get(1, 0), Some(0xffff_0000));
    assert_eq!(target.get(2, 0), Some(0xff00_00ff));
    assert_eq!(target.get(0, 1), Some(0xffff_0000));
    assert_eq!(target.get(0, 2), Some(0xff00_00ff));
}

#[test]
fn invalid_regions_and_transforms_are_rejected() {
    let source = Image::create_mutable(1, 1).unwrap();
    let mut target = Image::create_mutable(1, 1).unwrap();
    let mut graphics = Graphics::new(&mut target);
    assert_eq!(
        graphics.draw_region_raw(&source, 0, 0, 2, 1, 0, 0, 0, 0),
        Err(GraphicsError::InvalidSourceRegion)
    );
    assert_eq!(
        graphics.draw_region_raw(&source, 0, 0, 1, 1, 8, 0, 0, 0),
        Err(GraphicsError::InvalidTransform(8))
    );
}


#[test]
fn fill_rect_respects_translate_and_clip() {
    let mut img = Image::create_mutable(6, 6).unwrap();
    let mut g = Graphics::new(&mut img);
    g.set_color(0x00FF_0000); // red
    g.translate(1, 1);
    g.set_clip(0, 0, 3, 3); // clip 3x3 at (1,1) in target space
    g.fill_rect(0, 0, 10, 10); // huge, gets clipped
    assert_eq!(img.get(1, 1), Some(0xFFFF_0000));
    assert_eq!(img.get(3, 3), Some(0xFFFF_0000));
    assert_eq!(img.get(4, 4), Some(0xFFFF_FFFF)); // outside clip stays white
    assert_eq!(img.get(0, 0), Some(0xFFFF_FFFF)); // before translate origin
}

#[test]
fn get_color_round_trips_set_color() {
    let mut img = Image::create_mutable(2, 2).unwrap();
    let mut g = Graphics::new(&mut img);
    g.set_color(0x00AB_CDEF);
    assert_eq!(g.color(), 0x00AB_CDEF);
    g.set_color_rgb(255, 255, 255);
    assert_eq!(g.color(), 0x00FF_FFFF);
}

#[test]
fn anchors_resolve_center_and_corners() {
    assert_eq!(anchor_top_left(10, 10, 4, 4, TOP_LEFT).unwrap(), (10, 10));
    assert_eq!(
        anchor_top_left(10, 10, 4, 4, RIGHT | BOTTOM).unwrap(),
        (6, 6)
    );
    assert_eq!(
        anchor_top_left(10, 10, 4, 4, HCENTER | VCENTER).unwrap(),
        (8, 8)
    );
}

#[test]
fn draw_image_blits_with_alpha() {
    let mut img = Image::create_mutable(4, 4).unwrap(); // opaque white
                                                        // 2x2 source: opaque blue top-left, transparent elsewhere.
    let src = Image::from_argb(
        2,
        2,
        vec![0xFF00_00FF, 0x0000_0000, 0x0000_0000, 0x0000_0000],
    )
    .unwrap();
    let mut g = Graphics::new(&mut img);
    g.draw_image(&src, 1, 1, TOP_LEFT).unwrap();
    assert_eq!(img.get(1, 1), Some(0xFF00_00FF)); // opaque blue landed
    assert_eq!(img.get(2, 1), Some(0xFFFF_FFFF)); // transparent left white
}

#[test]
fn draw_image_right_anchor_and_translate() {
    // A 2x2 sprite drawn with TOP|RIGHT anchor lands its right edge at x.
    let mut img = Image::create_mutable(6, 6).unwrap();
    let src = Image::from_argb(2, 2, vec![0xFF00_0000; 4]).unwrap();
    let mut g = Graphics::new(&mut img);
    g.translate(1, 0);
    g.draw_image(&src, 4, 0, TOP | RIGHT).unwrap(); // top-left = (4-2, 0) + tx(1,0) = (3,0)
    assert_eq!(img.get(3, 0), Some(0xFF00_0000));
    assert_eq!(img.get(4, 1), Some(0xFF00_0000));
    assert_eq!(img.get(2, 0), Some(0xFFFF_FFFF)); // nothing to the left
}

#[test]
fn draw_line_is_clipped() {
    let mut img = Image::create_mutable(5, 5).unwrap();
    let mut g = Graphics::new(&mut img);
    g.set_color(0x0000_0000);
    g.set_clip(0, 0, 3, 5);
    g.draw_line(0, 0, 4, 0); // horizontal, clipped at x<3
    assert_eq!(img.get(0, 0), Some(0xFF00_0000));
    assert_eq!(img.get(2, 0), Some(0xFF00_0000));
    assert_eq!(img.get(3, 0), Some(0xFFFF_FFFF)); // clipped out
}

#[test]
fn draw_rect_outlines_but_leaves_the_interior() {
    let mut img = Image::create_mutable(6, 6).unwrap();
    let mut g = Graphics::new(&mut img);
    g.set_color(0x0000_0000);
    g.draw_rect(1, 1, 3, 3); // corners (1,1)..(4,4)
    assert_eq!(img.get(1, 1), Some(0xFF00_0000)); // corner
    assert_eq!(img.get(4, 4), Some(0xFF00_0000)); // far corner (inclusive)
    assert_eq!(img.get(2, 2), Some(0xFFFF_FFFF)); // interior untouched
}


#[test]
fn postal_primitives_fill_triangles() {
    let mut target = Image::create_mutable(9, 9).unwrap();
    {
        let mut graphics = Graphics::new(&mut target);
        graphics.set_color(0x00ff00);
        graphics.fill_triangle(1, 1, 7, 1, 4, 7);
    }
    assert_eq!(target.get(5, 2), Some(0xff00_ff00));
    assert_eq!(target.get(4, 5), Some(0xff00_ff00));
    assert_eq!(target.get(0, 0), Some(0xffff_ffff));
}
