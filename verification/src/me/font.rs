//! Device-selected system-font service boundary.
//!
//! MIDP font metrics and glyphs varied by handset. The runtime therefore owns
//! only Java-facing descriptors and validation; a game supplies a reviewed
//! provider whose id is named by its device profile.

use vstd::prelude::*;
use crate::device::{same_text, FontFragment};
use crate::jvm::JavaError;

verus! {

#[derive(Debug, Clone, Copy, PartialEq, Eq, Hash, Structural)]
pub struct FontSpec {
    pub face: i32,
    pub style: i32,
    pub size: i32,
}

pub open spec fn default_font_spec() -> FontSpec {
    FontSpec { face: 0, style: 0, size: 0 }
}

impl FontSpec {
    /// MIDP `Font.getDefaultFont()`: `FACE_SYSTEM`, `STYLE_PLAIN`,
    /// `SIZE_MEDIUM`, all of which are `0`.
    pub fn default_font() -> (r: FontSpec)
        ensures
            r == default_font_spec(),
    {
        FontSpec { face: 0, style: 0, size: 0 }
    }
}

#[derive(Debug, Clone, Copy, PartialEq, Eq, Structural)]
pub struct FontMetrics {
    pub height: i32,
    pub baseline: i32,
}

#[derive(Debug, Clone, PartialEq, Eq)]
pub struct GlyphBitmap {
    pub width: u32,
    pub height: u32,
    pub advance: i32,
    pub bearing_x: i32,
    pub bearing_y: i32,
    /// Row-major coverage values (0 transparent, 255 fully covered).
    pub alpha: Vec<u8>,
}

/// A reviewed source of metrics and glyph rasters, implemented by the game.
pub trait FontProvider {
    /// The id the provider names itself by.
    closed spec fn id_of(&self) -> Seq<char> {
        arbitrary()
    }

    fn provider_id(&self) -> (r: &str)
        ensures
            r@ == self.id_of(),
    ;

    /// The metrics the provider gives for `font`.
    closed spec fn metrics_of(&self, font: FontSpec) -> Result<FontMetrics, JavaError> {
        arbitrary()
    }

    fn metrics(&self, font: FontSpec) -> (r: Result<FontMetrics, JavaError>)
        ensures
            r == self.metrics_of(font),
    ;

    /// The glyph the provider gives for `character` in `font`: a provider
    /// answers the same for the same font and character.
    closed spec fn glyph_of(&self, font: FontSpec, character: char) -> Result<GlyphBitmap, JavaError> {
        arbitrary()
    }

    fn glyph(&self, font: FontSpec, character: char) -> (r: Result<GlyphBitmap, JavaError>)
        ensures
            r == self.glyph_of(font, character),
    ;
}

/// Whether a glyph's coverage holds exactly one value per pixel (the pixel
/// count saturating at the machine word).
pub open spec fn glyph_well_formed(glyph: GlyphBitmap) -> bool {
    let cells = glyph.width * glyph.height;
    glyph.alpha@.len() == (if cells > usize::MAX {
        usize::MAX as int
    } else {
        cells
    })
}

/// Accepts a glyph from a provider only when its bitmap is well formed.
pub fn check_glyph(glyph: GlyphBitmap) -> (r: Result<GlyphBitmap, JavaError>)
    ensures
        glyph_well_formed(glyph) ==> r == Ok::<GlyphBitmap, JavaError>(glyph),
        !glyph_well_formed(glyph) ==> r == Err::<GlyphBitmap, JavaError>(
            JavaError::IllegalState("font provider returned an invalid glyph bitmap"),
        ),
{
    let cells = (glyph.width as usize).checked_mul(glyph.height as usize);
    let expected = match cells {
        Some(n) => n,
        None => usize::MAX,
    };
    if glyph.alpha.len() != expected {
        return Err(JavaError::IllegalState("font provider returned an invalid glyph bitmap"));
    }
    Ok(glyph)
}

/// A provider's answer once a malformed bitmap is refused.
pub open spec fn checked(glyph: Result<GlyphBitmap, JavaError>) -> Result<GlyphBitmap, JavaError> {
    match glyph {
        Ok(g) => if glyph_well_formed(g) {
            Ok(g)
        } else {
            Err(JavaError::IllegalState("font provider returned an invalid glyph bitmap"))
        },
        Err(e) => Err(e),
    }
}

/// The advances of the characters of `text`, in order, or the failure of
/// the first character whose glyph fails.
pub open spec fn advances_of<P: FontProvider>(provider: P, font: FontSpec, text: Seq<char>) -> Result<
    Seq<i32>,
    JavaError,
>
    decreases text.len(),
{
    if text.len() == 0 {
        Ok(Seq::empty())
    } else {
        match advances_of(provider, font, text.drop_last()) {
            Err(e) => Err(e),
            Ok(a) => match checked(provider.glyph_of(font, text.last())) {
                Err(e) => Err(e),
                Ok(g) => Ok(a.push(g.advance)),
            },
        }
    }
}

/// A failure on a prefix of the text is the failure of the whole text.
proof fn lemma_advances_fail<P: FontProvider>(provider: P, font: FontSpec, text: Seq<char>, k: int)
    requires
        0 <= k <= text.len(),
        advances_of(provider, font, text.subrange(0, k)) is Err,
    ensures
        advances_of(provider, font, text) == advances_of(provider, font, text.subrange(0, k)),
    decreases text.len() - k,
{
    if k == text.len() {
        assert(text.subrange(0, k) =~= text);
    } else {
        let next = text.subrange(0, k + 1);
        assert(next.drop_last() =~= text.subrange(0, k));
        lemma_advances_fail(provider, font, text, k + 1);
    }
}

/// The sum of advances, saturating at Java `int` bounds after every glyph.
pub open spec fn saturating_width(advances: Seq<i32>) -> int
    decreases advances.len(),
{
    if advances.len() == 0 {
        0
    } else {
        let prefix = saturating_width(advances.drop_last());
        let sum = prefix + advances.last();
        if sum > i32::MAX {
            i32::MAX as int
        } else if sum < i32::MIN {
            i32::MIN as int
        } else {
            sum
        }
    }
}

proof fn lemma_saturating_width_range(advances: Seq<i32>)
    ensures
        i32::MIN <= saturating_width(advances) <= i32::MAX,
    decreases advances.len(),
{
    if advances.len() > 0 {
        lemma_saturating_width_range(advances.drop_last());
    }
}

/// Whether a provider's id names the profile's reviewed provider exactly.
pub fn provider_matches(provider_id: &str, profile: &FontFragment) -> (r: bool)
    ensures
        r == (provider_id@ == profile.provider@),
{
    same_text(provider_id, profile.provider.as_str())
}

#[derive(Debug)]
pub struct FontRuntime<P> {
    provider: P,
}

impl<P: FontProvider> FontRuntime<P> {
    /// Accepts `provider` only when its id is the one the profile names.
    pub fn for_profile(provider: P, profile: &FontFragment) -> (r: Result<Self, JavaError>)
        ensures
            r is Ok <==> provider.id_of() == profile.provider@,
            r is Err ==> r == Err::<Self, JavaError>(
                JavaError::IllegalState("font provider does not match selected device profile"),
            ),
            r matches Ok(runtime) ==> runtime.provider() == provider,
    {
        if !provider_matches(provider.provider_id(), profile) {
            return Err(JavaError::IllegalState("font provider does not match selected device profile"));
        }
        Ok(Self { provider })
    }

    pub closed spec fn provider(&self) -> P {
        self.provider
    }

    pub fn metrics(&self, font: FontSpec) -> (r: Result<FontMetrics, JavaError>)
        ensures
            r == self.provider().metrics_of(font),
    {
        self.provider.metrics(font)
    }

    /// The provider's glyph, refused when its bitmap is malformed.
    pub fn glyph(&self, font: FontSpec, character: char) -> (r: Result<GlyphBitmap, JavaError>)
        ensures
            r matches Ok(g) ==> glyph_well_formed(g),
            r == checked(self.provider().glyph_of(font, character)),
    {
        let glyph = self.provider.glyph(font, character)?;
        check_glyph(glyph)
    }

    pub fn char_width(&self, font: FontSpec, character: char) -> (r: Result<i32, JavaError>)
        ensures
            match checked(self.provider().glyph_of(font, character)) {
                Ok(g) => r == Ok::<i32, JavaError>(g.advance),
                Err(e) => r == Err::<i32, JavaError>(e),
            },
    {
        let glyph = self.glyph(font, character)?;
        Ok(glyph.advance)
    }

    /// The width of `text`: each character's advance, summed with saturation;
    /// the first failing glyph fails the whole measurement.
    pub fn string_width(&self, font: FontSpec, text: &str) -> (r: Result<i32, JavaError>)
        ensures
            match advances_of(self.provider(), font, text@) {
                Ok(advances) => r == Ok::<i32, JavaError>(saturating_width(advances) as i32),
                Err(e) => r == Err::<i32, JavaError>(e),
            },
    {
        let count = text.unicode_len();
        let mut width: i32 = 0;
        let mut i: usize = 0;
        let ghost mut advances: Seq<i32> = Seq::empty();
        while i < count
            invariant
                i <= count,
                count == text@.len(),
                advances.len() == i,
                width == saturating_width(advances),
                advances_of(self.provider(), font, text@.subrange(0, i as int)) == Ok::<Seq<i32>, JavaError>(advances),
            decreases count - i,
        {
            let c = text.get_char(i);
            let ghost pre = text@.subrange(0, i + 1);
            proof {
                assert(pre.drop_last() =~= text@.subrange(0, i as int));
                assert(pre.last() == c);
            }
            let advance = match self.char_width(font, c) {
                Ok(a) => a,
                Err(e) => {
                    proof {
                        lemma_advances_fail(self.provider(), font, text@, i + 1);
                    }
                    return Err(e);
                },
            };
            proof {
                lemma_saturating_width_range(advances);
                assert(advances.push(advance).drop_last() =~= advances);
                advances = advances.push(advance);
            }
            let sum: i64 = width as i64 + advance as i64;
            width = if sum > i32::MAX as i64 {
                i32::MAX
            } else if sum < i32::MIN as i64 {
                i32::MIN
            } else {
                sum as i32
            };
            i += 1;
        }
        proof {
            assert(text@.subrange(0, i as int) =~= text@);
        }
        Ok(width)
    }

    pub fn into_provider(self) -> (r: P)
        ensures
            r == self.provider(),
    {
        self.provider
    }
}

} // verus!
