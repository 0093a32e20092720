use j2me_kit::device::FontFragment;
use j2me_kit::jvm::JavaError;
use j2me_kit::me::font::{FontMetrics, FontProvider, FontRuntime, FontSpec, GlyphBitmap};

struct Fixture;

impl FontProvider for Fixture {
    fn provider_id(&self) -> &str {
        "fixture-v1"
    }
    fn metrics(&self, _: FontSpec) -> Result<FontMetrics, JavaError> {
        Ok(FontMetrics {
            height: 9,
            baseline: 7,
        })
    }
    fn glyph(&self, _: FontSpec, _: char) -> Result<GlyphBitmap, JavaError> {
        Ok(GlyphBitmap {
            width: 1,
            height: 1,
            advance: 2,
            bearing_x: 0,
            bearing_y: 1,
            alpha: vec![255],
        })
    }
}

#[test]
fn profile_must_name_the_exact_reviewed_provider() {
    let profile = FontFragment {
        provider: "fixture-v1".to_owned(),
    };
    let runtime = FontRuntime::for_profile(Fixture, &profile).unwrap();
    let spec = FontSpec {
        face: 0,
        style: 0,
        size: 8,
    };
    assert_eq!(runtime.metrics(spec).unwrap().baseline, 7);
    assert_eq!(runtime.glyph(spec, 'A').unwrap().alpha, vec![255]);
}
