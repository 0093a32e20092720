//! Composable, game-owned handset capability profiles.
//!
//! These types describe the emulated phone. They contain no desktop keyboard,
//! window, sound-card, browser, or game behavior. A host first maps physical
//! input to [`HandsetKey`], then the selected profile maps that key to the raw
//! integer delivered to `Canvas.keyPressed`.

use vstd::prelude::*;
use crate::text::{debug_quoted, debug_text, str_chars, text_before, text_less, trim, trim_bounds, with_decimal, decimal_spec};

verus! {

pub const PROFILE_SCHEMA_VERSION: u32 = 1;

#[derive(Debug, Clone, Copy, PartialEq, Eq, Hash, Structural)]
pub enum HandsetKey {
    Up,
    Down,
    Left,
    Right,
    Fire,
    SoftLeft,
    SoftRight,
    Digit(u8),
    Star,
    Pound,
}

#[derive(Debug, Clone, Copy, PartialEq, Eq, Structural)]
pub struct DisplayFragment {
    pub width: u32,
    pub height: u32,
    pub fullscreen_width: Option<u32>,
    pub fullscreen_height: Option<u32>,
}

impl DisplayFragment {
    /// The canvas size in normal or full-screen mode; a full-screen size the
    /// profile leaves out falls back to the normal one.
    pub fn canvas_size(&self, fullscreen: bool) -> (r: (u32, u32))
        ensures
            !fullscreen ==> r == (self.width, self.height),
            fullscreen ==> r == (
                match self.fullscreen_width {
                    Some(w) => w,
                    None => self.width,
                },
                match self.fullscreen_height {
                    Some(h) => h,
                    None => self.height,
                },
            ),
    {
        if fullscreen {
            let width = match self.fullscreen_width {
                Some(w) => w,
                None => self.width,
            };
            let height = match self.fullscreen_height {
                Some(h) => h,
                None => self.height,
            };
            (width, height)
        } else {
            (self.width, self.height)
        }
    }
}

#[derive(Debug, PartialEq, Eq)]
pub struct InputFragment {
    pub up: i32,
    pub down: i32,
    pub left: i32,
    pub right: i32,
    pub fire: i32,
    pub soft_left: i32,
    pub soft_right: i32,
    pub star: i32,
    pub pound: i32,
    pub digits: [i32; 10],
    pub game_action_up: Vec<i32>,
    pub game_action_down: Vec<i32>,
    pub game_action_left: Vec<i32>,
    pub game_action_right: Vec<i32>,
    pub game_action_fire: Vec<i32>,
    /// Whether the handset delivers `Canvas.pointerPressed` / `pointerReleased`.
    pub pointer_events: bool,
    /// Whether the handset additionally delivers `Canvas.pointerDragged`.
    pub pointer_motion_events: bool,
    /// Whether the handset delivers `Canvas.keyRepeated` callbacks.
    pub repeat_events: bool,
}

/// The raw code a handset key sends on this profile; a digit key past 9 has
/// none.
pub open spec fn key_code_spec(input: InputFragment, key: HandsetKey) -> Option<i32> {
    match key {
        HandsetKey::Up => Some(input.up),
        HandsetKey::Down => Some(input.down),
        HandsetKey::Left => Some(input.left),
        HandsetKey::Right => Some(input.right),
        HandsetKey::Fire => Some(input.fire),
        HandsetKey::SoftLeft => Some(input.soft_left),
        HandsetKey::SoftRight => Some(input.soft_right),
        HandsetKey::Digit(d) => if d < 10 {
            Some(input.digits@[d as int])
        } else {
            None
        },
        HandsetKey::Star => Some(input.star),
        HandsetKey::Pound => Some(input.pound),
    }
}

/// MIDP `Canvas.getGameAction` over the reviewed tables, which are consulted
/// in the order UP, LEFT, RIGHT, DOWN, FIRE; `0` for a key with no action.
pub open spec fn game_action_spec(input: InputFragment, raw_code: i32) -> i32 {
    if input.game_action_up@.contains(raw_code) {
        1
    } else if input.game_action_left@.contains(raw_code) {
        2
    } else if input.game_action_right@.contains(raw_code) {
        5
    } else if input.game_action_down@.contains(raw_code) {
        6
    } else if input.game_action_fire@.contains(raw_code) {
        8
    } else {
        0
    }
}

/// Whether `code` occurs in `codes`.
pub fn contains_code(codes: &Vec<i32>, code: i32) -> (r: bool)
    ensures
        r == codes@.contains(code),
{
    let mut i: usize = 0;
    while i < codes.len()
        invariant
            i <= codes.len(),
            forall|j: int| 0 <= j < i ==> codes@[j] != code,
        decreases codes.len() - i,
    {
        if codes[i] == code {
            return true;
        }
        i += 1;
    }
    false
}

impl InputFragment {
    pub fn key_code(&self, key: HandsetKey) -> (r: Option<i32>)
        ensures
            r == key_code_spec(*self, key),
    {
        match key {
            HandsetKey::Up => Some(self.up),
            HandsetKey::Down => Some(self.down),
            HandsetKey::Left => Some(self.left),
            HandsetKey::Right => Some(self.right),
            HandsetKey::Fire => Some(self.fire),
            HandsetKey::SoftLeft => Some(self.soft_left),
            HandsetKey::SoftRight => Some(self.soft_right),
            HandsetKey::Digit(digit) => if digit < 10 {
                Some(self.digits[digit as usize])
            } else {
                None
            },
            HandsetKey::Star => Some(self.star),
            HandsetKey::Pound => Some(self.pound),
        }
    }

    /// MIDP `Canvas.getGameAction`, using the reviewed table for this handset.
    pub fn game_action(&self, raw_code: i32) -> (r: i32)
        ensures
            r == game_action_spec(*self, raw_code),
    {
        if contains_code(&self.game_action_up, raw_code) {
            1
        } else if contains_code(&self.game_action_left, raw_code) {
            2
        } else if contains_code(&self.game_action_right, raw_code) {
            5
        } else if contains_code(&self.game_action_down, raw_code) {
            6
        } else if contains_code(&self.game_action_fire, raw_code) {
            8
        } else {
            0
        }
    }
}

/// Whether two texts are equal.
pub fn same_text(a: &str, b: &str) -> (r: bool)
    ensures
        r == (a@ == b@),
{
    a.to_owned() == b.to_owned()
}

/// The first value listed for `key` in an association list.
pub open spec fn lookup_text(entries: Seq<(String, String)>, key: Seq<char>) -> Option<String>
    decreases entries.len(),
{
    if entries.len() == 0 {
        None
    } else if entries[0].0@ == key {
        Some(entries[0].1)
    } else {
        lookup_text(entries.drop_first(), key)
    }
}

/// Whether `text` is one of `entries`.
pub open spec fn lists_text(entries: Seq<String>, text: Seq<char>) -> bool {
    exists|i: int| 0 <= i < entries.len() && #[trigger] entries[i]@ == text
}

/// Whether `text` is one of `entries`.
pub fn list_contains(entries: &Vec<String>, text: &str) -> (r: bool)
    ensures
        r == lists_text(entries@, text@),
{
    let mut i: usize = 0;
    while i < entries.len()
        invariant
            i <= entries@.len(),
            forall|j: int| 0 <= j < i ==> entries@[j]@ != text@,
        decreases entries@.len() - i,
    {
        if same_text(entries[i].as_str(), text) {
            return true;
        }
        i += 1;
    }
    false
}

/// The media capabilities of a handset. Content types, aliases and controls
/// are listed once each; an alias maps a MIME spelling to its canonical one.
#[derive(Debug, PartialEq, Eq)]
pub struct MediaFragment {
    pub content_types: Vec<String>,
    pub mime_aliases: Vec<(String, String)>,
    pub controls: Vec<String>,
    /// `device`, `approximate`, or `none`; a descriptive capability, not a
    /// request for the host to pretend an approximation is device-faithful.
    pub midi_renderer: String,
}

/// The canonical spelling of `mime` under `media`'s aliases.
pub open spec fn canonical_mime_spec(media: MediaFragment, mime: Seq<char>) -> Seq<char> {
    match lookup_text(media.mime_aliases@, mime) {
        Some(canonical) => canonical@,
        None => mime,
    }
}

impl MediaFragment {
    pub fn canonical_mime<'a>(&'a self, mime: &'a str) -> (r: &'a str)
        ensures
            r@ == canonical_mime_spec(*self, mime@),
    {
        let mut i: usize = 0;
        proof {
            assert(self.mime_aliases@.subrange(0, self.mime_aliases@.len() as int) =~= self.mime_aliases@);
        }
        while i < self.mime_aliases.len()
            invariant
                i <= self.mime_aliases@.len(),
                lookup_text(self.mime_aliases@, mime@) == lookup_text(
                    self.mime_aliases@.subrange(i as int, self.mime_aliases@.len() as int),
                    mime@,
                ),
            decreases self.mime_aliases@.len() - i,
        {
            let ghost rest = self.mime_aliases@.subrange(i as int, self.mime_aliases@.len() as int);
            proof {
                assert(rest.drop_first() =~= self.mime_aliases@.subrange(i + 1, self.mime_aliases@.len() as int));
            }
            if same_text(self.mime_aliases[i].0.as_str(), mime) {
                return self.mime_aliases[i].1.as_str();
            }
            i += 1;
        }
        mime
    }

    pub fn supports_mime(&self, mime: &str) -> (r: bool)
        ensures
            r == lists_text(self.content_types@, canonical_mime_spec(*self, mime@)),
    {
        list_contains(&self.content_types, self.canonical_mime(mime))
    }

    pub fn has_control(&self, control: &str) -> (r: bool)
        ensures
            r == lists_text(self.controls@, control@),
    {
        list_contains(&self.controls, control)
    }
}

/// The reviewed font evidence a profile names. The runtime never silently
/// substitutes one vendor's system font for another.
#[derive(Debug, PartialEq, Eq)]
pub struct FontFragment {
    /// Identifier of game-owned metrics/raster evidence.
    pub provider: String,
}

#[derive(Debug, Clone, Copy, PartialEq, Eq, Structural)]
pub struct HapticsFragment {
    pub vibration: bool,
}

#[derive(Debug, Clone, Copy, PartialEq, Eq, Structural)]
pub struct RmsFragment {
    pub capacity_bytes: Option<u64>,
}

#[derive(Debug, Clone, Copy, PartialEq, Eq, Structural)]
pub enum FocusLossPolicy {
    /// The handset ignores the event (`none` in profile files).
    NoAction,
    Hide,
    PauseThenHide,
    HideThenPause,
}

#[derive(Debug, Clone, Copy, PartialEq, Eq, Structural)]
pub enum FocusGainPolicy {
    /// The handset ignores the event (`none` in profile files).
    NoAction,
    Show,
    StartThenShow,
    ShowThenStart,
}

#[derive(Debug, Clone, Copy, PartialEq, Eq, Structural)]
pub struct LifecycleFragment {
    pub focus_loss: FocusLossPolicy,
    pub focus_gain: FocusGainPolicy,
    pub platform_request: bool,
    pub platform_request_requires_exit: bool,
}

} // verus!

verus! {

// ---------------------------------------------------------------- copies

/// Whether two input fragments hold the same codes.
pub open spec fn same_input(a: InputFragment, b: InputFragment) -> bool {
    &&& a.up == b.up && a.down == b.down && a.left == b.left && a.right == b.right && a.fire == b.fire
    &&& a.soft_left == b.soft_left && a.soft_right == b.soft_right && a.star == b.star && a.pound == b.pound
    &&& a.digits == b.digits
    &&& a.game_action_up@ == b.game_action_up@ && a.game_action_down@ == b.game_action_down@
    &&& a.game_action_left@ == b.game_action_left@ && a.game_action_right@ == b.game_action_right@
    &&& a.game_action_fire@ == b.game_action_fire@
    &&& a.pointer_events == b.pointer_events && a.pointer_motion_events == b.pointer_motion_events
    &&& a.repeat_events == b.repeat_events
}

/// Whether two media fragments list the same capabilities.
pub open spec fn same_media(a: MediaFragment, b: MediaFragment) -> bool {
    a.content_types@ == b.content_types@ && a.mime_aliases@ == b.mime_aliases@ && a.controls@ == b.controls@
        && a.midi_renderer == b.midi_renderer
}

fn copy_codes(v: &Vec<i32>) -> (r: Vec<i32>)
    ensures
        r@ == v@,
{
    let r = v.clone();
    assert(r@ =~= v@);
    r
}

fn copy_texts(v: &Vec<String>) -> (r: Vec<String>)
    ensures
        r@ == v@,
{
    let mut r: Vec<String> = Vec::new();
    let mut i: usize = 0;
    while i < v.len()
        invariant
            i <= v@.len(),
            r@ == v@.subrange(0, i as int),
        decreases v@.len() - i,
    {
        r.push(v[i].clone());
        i += 1;
        assert(r@ =~= v@.subrange(0, i as int));
    }
    assert(v@.subrange(0, i as int) =~= v@);
    r
}

fn copy_pairs(v: &Vec<(String, String)>) -> (r: Vec<(String, String)>)
    ensures
        r@ == v@,
{
    let mut r: Vec<(String, String)> = Vec::new();
    let mut i: usize = 0;
    while i < v.len()
        invariant
            i <= v@.len(),
            r@ == v@.subrange(0, i as int),
        decreases v@.len() - i,
    {
        r.push((v[i].0.clone(), v[i].1.clone()));
        i += 1;
        assert(r@ =~= v@.subrange(0, i as int));
    }
    assert(v@.subrange(0, i as int) =~= v@);
    r
}

impl Clone for InputFragment {
    fn clone(&self) -> (r: Self)
        ensures
            same_input(r, *self),
    {
        InputFragment {
            up: self.up,
            down: self.down,
            left: self.left,
            right: self.right,
            fire: self.fire,
            soft_left: self.soft_left,
            soft_right: self.soft_right,
            star: self.star,
            pound: self.pound,
            digits: self.digits,
            game_action_up: copy_codes(&self.game_action_up),
            game_action_down: copy_codes(&self.game_action_down),
            game_action_left: copy_codes(&self.game_action_left),
            game_action_right: copy_codes(&self.game_action_right),
            game_action_fire: copy_codes(&self.game_action_fire),
            pointer_events: self.pointer_events,
            pointer_motion_events: self.pointer_motion_events,
            repeat_events: self.repeat_events,
        }
    }
}

impl Clone for MediaFragment {
    fn clone(&self) -> (r: Self)
        ensures
            same_media(r, *self),
    {
        MediaFragment {
            content_types: copy_texts(&self.content_types),
            mime_aliases: copy_pairs(&self.mime_aliases),
            controls: copy_texts(&self.controls),
            midi_renderer: self.midi_renderer.clone(),
        }
    }
}

impl Clone for FontFragment {
    fn clone(&self) -> (r: Self)
        ensures
            r == *self,
    {
        FontFragment { provider: self.provider.clone() }
    }
}

// ---------------------------------------------------------------- connector and system

/// Protocol families the handset exposes through the Generic Connection
/// Framework, each listed once, in ascending order. This records device
/// capability only; a host must still provide an explicit, reviewed backend
/// before any external request can leave the process.
#[derive(Debug, PartialEq, Eq)]
pub struct ConnectorFragment {
    pub schemes: Vec<String>,
}

impl ConnectorFragment {
    pub fn supports(&self, scheme: &str) -> (r: bool)
        ensures
            r == lists_text(self.schemes@, scheme@),
    {
        list_contains(&self.schemes, scheme)
    }
}

impl Clone for ConnectorFragment {
    fn clone(&self) -> (r: Self)
        ensures
            r.schemes@ == self.schemes@,
    {
        ConnectorFragment { schemes: copy_texts(&self.schemes) }
    }
}

/// Handset/runtime defaults exposed through `java.lang.System` and the APIs
/// that use the platform default character encoding. These are device facts,
/// not host configuration. Property names are listed once each, in ascending
/// order.
#[derive(Debug, PartialEq, Eq)]
pub struct SystemFragment {
    /// Java charset name used when no encoding argument is supplied.
    pub default_charset: String,
    /// Defaults returned by `System.getProperty`.
    pub properties: Vec<(String, String)>,
}

impl SystemFragment {
    pub fn property(&self, name: &str) -> (r: Option<&str>)
        ensures
            match lookup_text(self.properties@, name@) {
                Some(v) => r matches Some(x) && x@ == v@,
                None => r is None,
            },
    {
        let mut i: usize = 0;
        proof {
            assert(self.properties@.subrange(0, self.properties@.len() as int) =~= self.properties@);
        }
        while i < self.properties.len()
            invariant
                i <= self.properties@.len(),
                lookup_text(self.properties@, name@) == lookup_text(
                    self.properties@.subrange(i as int, self.properties@.len() as int),
                    name@,
                ),
            decreases self.properties@.len() - i,
        {
            let ghost rest = self.properties@.subrange(i as int, self.properties@.len() as int);
            proof {
                assert(rest.drop_first() =~= self.properties@.subrange(i + 1, self.properties@.len() as int));
            }
            if same_text(self.properties[i].0.as_str(), name) {
                return Some(self.properties[i].1.as_str());
            }
            i += 1;
        }
        None
    }
}

impl Clone for SystemFragment {
    fn clone(&self) -> (r: Self)
        ensures
            r.default_charset == self.default_charset,
            r.properties@ == self.properties@,
    {
        SystemFragment { default_charset: self.default_charset.clone(), properties: copy_pairs(&self.properties) }
    }
}

// ---------------------------------------------------------------- profiles

/// The fragment names one profile composes.
#[derive(Debug, PartialEq, Eq)]
pub struct ProfileRefs {
    pub id: String,
    pub display: String,
    pub input: String,
    pub media: String,
    pub haptics: String,
    pub rms: String,
    pub connector: String,
    pub system: String,
    pub font: String,
    pub lifecycle: String,
}

/// One handset, composed from its fragments.
#[derive(Debug, PartialEq, Eq)]
pub struct DeviceProfile {
    pub id: String,
    pub display: DisplayFragment,
    pub input: InputFragment,
    pub media: MediaFragment,
    pub haptics: HapticsFragment,
    pub rms: RmsFragment,
    pub connector: ConnectorFragment,
    pub system: SystemFragment,
    pub font: FontFragment,
    pub lifecycle: LifecycleFragment,
}

/// Why a catalog or a profile was refused.
#[derive(Debug, PartialEq, Eq)]
pub struct ProfileError(pub String);

/// The value filed under `key` in a table.
pub open spec fn table_lookup<V>(t: Seq<(String, V)>, key: Seq<char>) -> Option<V>
    decreases t.len(),
{
    if t.len() == 0 {
        None
    } else if t[0].0@ == key {
        Some(t[0].1)
    } else {
        table_lookup(t.drop_first(), key)
    }
}

/// A table's keys, each strictly before the next.
pub open spec fn keys_ascending<V>(t: Seq<(String, V)>) -> bool {
    forall|i: int| 0 <= i < t.len() - 1 ==> text_less(#[trigger] t[i].0@, t[i + 1].0@)
}

fn table_get<'a, V>(t: &'a Vec<(String, V)>, key: &str) -> (r: Option<&'a V>)
    ensures
        match table_lookup(t@, key@) {
            Some(v) => r matches Some(x) && *x == v,
            None => r is None,
        },
{
    let mut i: usize = 0;
    proof {
        assert(t@.subrange(0, t@.len() as int) =~= t@);
    }
    while i < t.len()
        invariant
            i <= t@.len(),
            table_lookup(t@, key@) == table_lookup(t@.subrange(i as int, t@.len() as int), key@),
        decreases t@.len() - i,
    {
        let ghost rest = t@.subrange(i as int, t@.len() as int);
        proof {
            assert(rest.drop_first() =~= t@.subrange(i + 1, t@.len() as int));
        }
        if same_text(t[i].0.as_str(), key) {
            return Some(&t[i].1);
        }
        i += 1;
    }
    None
}

fn ascending<V>(t: &Vec<(String, V)>) -> (r: bool)
    ensures
        r == keys_ascending(t@),
{
    let mut i: usize = 1;
    while i < t.len()
        invariant
            1 <= i,
            forall|j: int| 0 <= j < i - 1 && j < t@.len() - 1 ==> text_less(#[trigger] t@[j].0@, t@[j + 1].0@),
        decreases t@.len() - i,
    {
        if !text_before(t[i - 1].0.as_str(), t[i].0.as_str()) {
            return false;
        }
        i += 1;
    }
    true
}

/// Whether a text is empty once surrounding whitespace is trimmed.
pub open spec fn blank(s: Seq<char>) -> bool {
    trim_bounds(s, 0, s.len() as int).0 == trim_bounds(s, 0, s.len() as int).1
}

fn is_blank(s: &str) -> (r: bool)
    ensures
        r == blank(s@),
{
    let chars = str_chars(s);
    let (a, b) = trim(&chars, 0, chars.len());
    a == b
}

/// `text` + `{:?}` of `s` + `tail`.
fn quoted_message(text: &str, s: &str, tail: &str) -> (r: String)
    ensures
        r@ == text@ + debug_text(s@) + tail@,
{
    let mut out = String::from_str(text);
    let q = debug_quoted(s);
    out.append(q.as_str());
    out.append(tail);
    out
}

/// The message for a profile that names a fragment no table holds.
pub open spec fn missing_message(id: Seq<char>, kind: Seq<char>, name: Seq<char>) -> Seq<char> {
    "device profile "@ + debug_text(id) + " references missing "@ + kind + " fragment "@ + debug_text(name)
}

fn missing(id: &str, kind: &str, name: &str) -> (r: ProfileError)
    ensures
        r.0@ == missing_message(id@, kind@, name@),
{
    let mut out = quoted_message("device profile ", id, " references missing ");
    out.append(kind);
    out.append(" fragment ");
    let q = debug_quoted(name);
    out.append(q.as_str());
    ProfileError(out)
}

/// A catalog of handset fragments, each table in ascending key order, and
/// the profiles that compose them.
#[derive(Debug)]
pub struct DeviceCatalog {
    pub schema_version: u32,
    display: Vec<(String, DisplayFragment)>,
    input: Vec<(String, InputFragment)>,
    media: Vec<(String, MediaFragment)>,
    haptics: Vec<(String, HapticsFragment)>,
    rms: Vec<(String, RmsFragment)>,
    connector: Vec<(String, ConnectorFragment)>,
    system: Vec<(String, SystemFragment)>,
    font: Vec<(String, FontFragment)>,
    lifecycle: Vec<(String, LifecycleFragment)>,
    profiles: Vec<ProfileRefs>,
}

/// The error, if any, that resolving `refs` against the tables meets first.
pub open spec fn refs_issue(c: DeviceCatalog, refs: ProfileRefs) -> Option<Seq<char>> {
    if table_lookup(c.display_table(), refs.display@) is None {
        Some(missing_message(refs.id@, "display"@, refs.display@))
    } else if table_lookup(c.input_table(), refs.input@) is None {
        Some(missing_message(refs.id@, "input"@, refs.input@))
    } else if table_lookup(c.media_table(), refs.media@) is None {
        Some(missing_message(refs.id@, "media"@, refs.media@))
    } else if table_lookup(c.haptics_table(), refs.haptics@) is None {
        Some(missing_message(refs.id@, "haptics"@, refs.haptics@))
    } else if table_lookup(c.rms_table(), refs.rms@) is None {
        Some(missing_message(refs.id@, "rms"@, refs.rms@))
    } else if table_lookup(c.connector_table(), refs.connector@) is None {
        Some(missing_message(refs.id@, "connector"@, refs.connector@))
    } else if table_lookup(c.system_table(), refs.system@) is None {
        Some(missing_message(refs.id@, "system"@, refs.system@))
    } else if table_lookup(c.font_table(), refs.font@) is None {
        Some(missing_message(refs.id@, "font"@, refs.font@))
    } else if table_lookup(c.lifecycle_table(), refs.lifecycle@) is None {
        Some(missing_message(refs.id@, "lifecycle"@, refs.lifecycle@))
    } else {
        None
    }
}

/// Whether `p` is the composition that `refs` names in the tables.
pub open spec fn composes(c: DeviceCatalog, refs: ProfileRefs, p: DeviceProfile) -> bool {
    &&& p.id@ == refs.id@
    &&& table_lookup(c.display_table(), refs.display@) == Some(p.display)
    &&& same_input(p.input, table_lookup(c.input_table(), refs.input@)->0)
    &&& same_media(p.media, table_lookup(c.media_table(), refs.media@)->0)
    &&& table_lookup(c.haptics_table(), refs.haptics@) == Some(p.haptics)
    &&& table_lookup(c.rms_table(), refs.rms@) == Some(p.rms)
    &&& p.connector.schemes@ == table_lookup(c.connector_table(), refs.connector@)->0.schemes@
    &&& p.system.default_charset == table_lookup(c.system_table(), refs.system@)->0.default_charset
    &&& p.system.properties@ == table_lookup(c.system_table(), refs.system@)->0.properties@
    &&& table_lookup(c.font_table(), refs.font@) == Some(p.font)
    &&& table_lookup(c.lifecycle_table(), refs.lifecycle@) == Some(p.lifecycle)
}

/// The message for a catalog of another schema.
pub open spec fn schema_message(version: u32) -> Seq<char> {
    "unsupported device profile schema "@ + decimal_spec(version as int) + ", expected 1"@
}

/// Whether profile `i` has a blank id or one an earlier profile has.
pub open spec fn bad_id(profiles: Seq<ProfileRefs>, i: int) -> bool {
    blank(profiles[i].id@) || exists|j: int| 0 <= j < i && (#[trigger] profiles[j]).id@ == profiles[i].id@
}

/// The first error among the profiles from `i` on, in order.
pub open spec fn profiles_issue(c: DeviceCatalog, i: int) -> Option<Seq<char>>
    decreases c.profile_list().len() - i,
{
    let ps = c.profile_list();
    if i < 0 || i >= ps.len() {
        None
    } else if bad_id(ps, i) {
        Some("device profile id "@ + debug_text(ps[i].id@) + " is empty or duplicated"@)
    } else if refs_issue(c, ps[i]) is Some {
        refs_issue(c, ps[i])
    } else {
        profiles_issue(c, i + 1)
    }
}

/// Whether a Java canvas dimension is out of range.
pub open spec fn bad_dimension(v: u32) -> bool {
    v == 0 || v > i32::MAX
}

/// Whether a display fragment has a dimension out of Java's range.
pub open spec fn bad_display(d: DisplayFragment) -> bool {
    bad_dimension(d.width) || bad_dimension(d.height) || (d.fullscreen_width matches Some(w) && bad_dimension(w))
        || (d.fullscreen_height matches Some(h) && bad_dimension(h))
}

/// Whether a MIDI renderer name is one the catalog knows.
pub open spec fn known_renderer(name: Seq<char>) -> bool {
    name == "device"@ || name == "approximate"@ || name == "none"@
}

/// Whether `c` may appear in a lowercase URI scheme.
pub open spec fn scheme_char(c: char) -> bool {
    ('a' <= c <= 'z') || ('0' <= c <= '9') || c == '+' || c == '-' || c == '.'
}

/// Whether a URI scheme is empty or has a character outside lowercase
/// letters, digits, `+`, `-` and `.`.
pub open spec fn bad_scheme(s: Seq<char>) -> bool {
    s.len() == 0 || exists|i: int| 0 <= i < s.len() && !scheme_char(#[trigger] s[i])
}

/// The index of the first bad scheme in a list, from `i` on.
pub open spec fn first_bad_scheme(s: Seq<String>, i: int) -> Option<int>
    decreases s.len() - i,
{
    if i < 0 || i >= s.len() {
        None
    } else if bad_scheme(s[i]@) {
        Some(i)
    } else {
        first_bad_scheme(s, i + 1)
    }
}

/// The index of the first display entry from `i` on.
pub open spec fn first_bad_display(t: Seq<(String, DisplayFragment)>, i: int) -> Option<int>
    decreases t.len() - i,
{
    if i < 0 || i >= t.len() {
        None
    } else if bad_display(t[i].1) {
        Some(i)
    } else {
        first_bad_display(t, i + 1)
    }
}

/// The index of the first media entry from `i` on.
pub open spec fn first_bad_media(t: Seq<(String, MediaFragment)>, i: int) -> Option<int>
    decreases t.len() - i,
{
    if i < 0 || i >= t.len() {
        None
    } else if !known_renderer(t[i].1.midi_renderer@) {
        Some(i)
    } else {
        first_bad_media(t, i + 1)
    }
}

/// The index of the first connector entry from `i` on.
pub open spec fn first_bad_connector(t: Seq<(String, ConnectorFragment)>, i: int) -> Option<int>
    decreases t.len() - i,
{
    if i < 0 || i >= t.len() {
        None
    } else if first_bad_scheme(t[i].1.schemes@, 0) is Some {
        Some(i)
    } else {
        first_bad_connector(t, i + 1)
    }
}

/// The index of the first system entry from `i` on.
pub open spec fn first_bad_system(t: Seq<(String, SystemFragment)>, i: int) -> Option<int>
    decreases t.len() - i,
{
    if i < 0 || i >= t.len() {
        None
    } else if bad_system(t[i].1) {
        Some(i)
    } else {
        first_bad_system(t, i + 1)
    }
}

/// Whether a system fragment has a blank charset or property name.
pub open spec fn bad_system(f: SystemFragment) -> bool {
    blank(f.default_charset@) || exists|i: int| 0 <= i < f.properties@.len() && blank(
        (#[trigger] f.properties@[i]).0@,
    )
}

/// What checking a catalog finds first: its schema, then each profile in
/// order, then the display, media, connector and system tables, each in key
/// order.
pub open spec fn validate_spec(c: DeviceCatalog) -> Option<Seq<char>> {
    if c.schema() != 1 {
        Some(schema_message(c.schema()))
    } else if profiles_issue(c, 0) is Some {
        profiles_issue(c, 0)
    } else if first_bad_display(c.display_table(), 0) is Some {
        let i = first_bad_display(c.display_table(), 0)->0;
        Some("display fragment "@ + debug_text(c.display_table()[i].0@) + " has an invalid Java canvas dimension"@)
    } else if first_bad_media(c.media_table(), 0) is Some {
        let i = first_bad_media(c.media_table(), 0)->0;
        let (id, m) = c.media_table()[i];
        Some("media fragment "@ + debug_text(id@) + " has unknown midi_renderer "@ + debug_text(m.midi_renderer@))
    } else if first_bad_connector(c.connector_table(), 0) is Some {
        let i = first_bad_connector(c.connector_table(), 0)->0;
        let (id, f) = c.connector_table()[i];
        let k = first_bad_scheme(f.schemes@, 0)->0;
        Some(
            "connector fragment "@ + debug_text(id@) + " has invalid lowercase URI scheme "@ + debug_text(
                f.schemes@[k]@,
            ),
        )
    } else if first_bad_system(c.system_table(), 0) is Some {
        let i = first_bad_system(c.system_table(), 0)->0;
        let (id, f) = c.system_table()[i];
        if blank(f.default_charset@) {
            Some("system fragment "@ + debug_text(id@) + " has an empty default_charset"@)
        } else {
            Some("system fragment "@ + debug_text(id@) + " has an empty property name"@)
        }
    } else {
        None
    }
}

impl DeviceCatalog {
    pub closed spec fn schema(&self) -> u32 {
        self.schema_version
    }

    pub closed spec fn display_table(&self) -> Seq<(String, DisplayFragment)> {
        self.display@
    }

    pub closed spec fn input_table(&self) -> Seq<(String, InputFragment)> {
        self.input@
    }

    pub closed spec fn media_table(&self) -> Seq<(String, MediaFragment)> {
        self.media@
    }

    pub closed spec fn haptics_table(&self) -> Seq<(String, HapticsFragment)> {
        self.haptics@
    }

    pub closed spec fn rms_table(&self) -> Seq<(String, RmsFragment)> {
        self.rms@
    }

    pub closed spec fn connector_table(&self) -> Seq<(String, ConnectorFragment)> {
        self.connector@
    }

    pub closed spec fn system_table(&self) -> Seq<(String, SystemFragment)> {
        self.system@
    }

    pub closed spec fn font_table(&self) -> Seq<(String, FontFragment)> {
        self.font@
    }

    pub closed spec fn lifecycle_table(&self) -> Seq<(String, LifecycleFragment)> {
        self.lifecycle@
    }

    pub closed spec fn profile_list(&self) -> Seq<ProfileRefs> {
        self.profiles@
    }

    /// The catalog's invariant: every table is in ascending key order, so no
    /// key occurs twice.
    pub open spec fn wf(&self) -> bool {
        &&& keys_ascending(self.display_table())
        &&& keys_ascending(self.input_table())
        &&& keys_ascending(self.media_table())
        &&& keys_ascending(self.haptics_table())
        &&& keys_ascending(self.rms_table())
        &&& keys_ascending(self.connector_table())
        &&& keys_ascending(self.system_table())
        &&& keys_ascending(self.font_table())
        &&& keys_ascending(self.lifecycle_table())
    }

    /// A catalog from its tables, each given in ascending key order, and its
    /// profiles; `None` when a table is out of order or repeats a key. The
    /// catalog is not checked yet: see [`validate`](Self::validate).
    pub fn from_tables(
        schema_version: u32,
        display: Vec<(String, DisplayFragment)>,
        input: Vec<(String, InputFragment)>,
        media: Vec<(String, MediaFragment)>,
        haptics: Vec<(String, HapticsFragment)>,
        rms: Vec<(String, RmsFragment)>,
        connector: Vec<(String, ConnectorFragment)>,
        system: Vec<(String, SystemFragment)>,
        font: Vec<(String, FontFragment)>,
        lifecycle: Vec<(String, LifecycleFragment)>,
        profiles: Vec<ProfileRefs>,
    ) -> (r: Option<DeviceCatalog>)
        ensures
            r is Some <==> (keys_ascending(display@) && keys_ascending(input@) && keys_ascending(media@)
                && keys_ascending(haptics@) && keys_ascending(rms@) && keys_ascending(connector@) && keys_ascending(
                system@,
            ) && keys_ascending(font@) && keys_ascending(lifecycle@)),
            r matches Some(c) ==> c.wf() && c.schema() == schema_version && c.display_table() == display@
                && c.input_table() == input@ && c.media_table() == media@ && c.haptics_table() == haptics@
                && c.rms_table() == rms@ && c.connector_table() == connector@ && c.system_table() == system@
                && c.font_table() == font@ && c.lifecycle_table() == lifecycle@ && c.profile_list() == profiles@,
    {
        if ascending(&display) && ascending(&input) && ascending(&media) && ascending(&haptics) && ascending(&rms)
            && ascending(&connector) && ascending(&system) && ascending(&font) && ascending(&lifecycle) {
            Some(
                DeviceCatalog {
                    schema_version,
                    display,
                    input,
                    media,
                    haptics,
                    rms,
                    connector,
                    system,
                    font,
                    lifecycle,
                    profiles,
                },
            )
        } else {
            None
        }
    }

    /// The profile ids, in catalog order.
    pub fn profile_ids(&self) -> (r: Vec<String>)
        ensures
            r@.len() == self.profile_list().len(),
            forall|i: int| 0 <= i < r@.len() ==> r@[i]@ == (#[trigger] self.profile_list()[i]).id@,
    {
        let mut r: Vec<String> = Vec::new();
        let mut i: usize = 0;
        while i < self.profiles.len()
            invariant
                i <= self.profiles@.len(),
                r@.len() == i,
                forall|j: int| 0 <= j < i ==> r@[j]@ == (#[trigger] self.profiles@[j]).id@,
            decreases self.profiles@.len() - i,
        {
            r.push(self.profiles[i].id.clone());
            i += 1;
        }
        r
    }

    /// The profile that `refs` composes, or the first fragment it names that
    /// no table holds.
    fn resolve_refs(&self, refs: &ProfileRefs) -> (r: Result<DeviceProfile, ProfileError>)
        ensures
            match refs_issue(*self, *refs) {
                Some(m) => r matches Err(e) && e.0@ == m,
                None => r matches Ok(p) && composes(*self, *refs, p),
            },
    {
        let display = match table_get(&self.display, refs.display.as_str()) {
            Some(f) => *f,
            None => return Err(missing(refs.id.as_str(), "display", refs.display.as_str())),
        };
        let input = match table_get(&self.input, refs.input.as_str()) {
            Some(f) => f.clone(),
            None => return Err(missing(refs.id.as_str(), "input", refs.input.as_str())),
        };
        let media = match table_get(&self.media, refs.media.as_str()) {
            Some(f) => f.clone(),
            None => return Err(missing(refs.id.as_str(), "media", refs.media.as_str())),
        };
        let haptics = match table_get(&self.haptics, refs.haptics.as_str()) {
            Some(f) => *f,
            None => return Err(missing(refs.id.as_str(), "haptics", refs.haptics.as_str())),
        };
        let rms = match table_get(&self.rms, refs.rms.as_str()) {
            Some(f) => *f,
            None => return Err(missing(refs.id.as_str(), "rms", refs.rms.as_str())),
        };
        let connector = match table_get(&self.connector, refs.connector.as_str()) {
            Some(f) => f.clone(),
            None => return Err(missing(refs.id.as_str(), "connector", refs.connector.as_str())),
        };
        let system = match table_get(&self.system, refs.system.as_str()) {
            Some(f) => f.clone(),
            None => return Err(missing(refs.id.as_str(), "system", refs.system.as_str())),
        };
        let font = match table_get(&self.font, refs.font.as_str()) {
            Some(f) => f.clone(),
            None => return Err(missing(refs.id.as_str(), "font", refs.font.as_str())),
        };
        let lifecycle = match table_get(&self.lifecycle, refs.lifecycle.as_str()) {
            Some(f) => *f,
            None => return Err(missing(refs.id.as_str(), "lifecycle", refs.lifecycle.as_str())),
        };
        Ok(
            DeviceProfile {
                id: refs.id.clone(),
                display,
                input,
                media,
                haptics,
                rms,
                connector,
                system,
                font,
                lifecycle,
            },
        )
    }

    /// The profile named `id`, composed from its fragments.
    pub fn resolve(&self, id: &str) -> (r: Result<DeviceProfile, ProfileError>)
        ensures
            match profile_index(self.profile_list(), id@, 0) {
                None => r matches Err(e) && e.0@ == "unknown device profile "@ + debug_text(id@),
                Some(i) => match refs_issue(*self, self.profile_list()[i]) {
                    Some(m) => r matches Err(e) && e.0@ == m,
                    None => r matches Ok(p) && composes(*self, self.profile_list()[i], p),
                },
            },
    {
        let mut i: usize = 0;
        while i < self.profiles.len()
            invariant
                i <= self.profiles@.len(),
                profile_index(self.profiles@, id@, 0) == profile_index(self.profiles@, id@, i as int),
            decreases self.profiles@.len() - i,
        {
            if same_text(self.profiles[i].id.as_str(), id) {
                return self.resolve_refs(&self.profiles[i]);
            }
            i += 1;
        }
        let mut message = String::from_str("unknown device profile ");
        let q = debug_quoted(id);
        message.append(q.as_str());
        Err(ProfileError(message))
    }
}

/// The index of the first profile from `i` on with id `id`.
pub open spec fn profile_index(ps: Seq<ProfileRefs>, id: Seq<char>, i: int) -> Option<int>
    decreases ps.len() - i,
{
    if i < 0 || i >= ps.len() {
        None
    } else if ps[i].id@ == id {
        Some(i)
    } else {
        profile_index(ps, id, i + 1)
    }
}

/// Whether profile `i`'s id occurs in an earlier profile.
fn seen_before(ps: &Vec<ProfileRefs>, i: usize) -> (r: bool)
    requires
        i < ps@.len(),
    ensures
        r == exists|j: int| 0 <= j < i && (#[trigger] ps@[j]).id@ == ps@[i as int].id@,
{
    let mut j: usize = 0;
    while j < i
        invariant
            j <= i < ps@.len(),
            forall|k: int| 0 <= k < j ==> (#[trigger] ps@[k]).id@ != ps@[i as int].id@,
        decreases i - j,
    {
        if same_text(ps[j].id.as_str(), ps[i].id.as_str()) {
            return true;
        }
        j += 1;
    }
    false
}

fn dimension_ok(v: u32) -> (r: bool)
    ensures
        r == !bad_dimension(v),
{
    v != 0 && v <= 0x7fff_ffff
}

fn display_ok(d: &DisplayFragment) -> (r: bool)
    ensures
        r == !bad_display(*d),
{
    dimension_ok(d.width) && dimension_ok(d.height) && match d.fullscreen_width {
        Some(w) => dimension_ok(w),
        None => true,
    } && match d.fullscreen_height {
        Some(h) => dimension_ok(h),
        None => true,
    }
}

fn scheme_ok(s: &str) -> (r: bool)
    ensures
        r == !bad_scheme(s@),
{
    let chars = str_chars(s);
    if chars.len() == 0 {
        return false;
    }
    let mut i: usize = 0;
    while i < chars.len()
        invariant
            chars@ == s@,
            i <= chars@.len(),
            forall|j: int| 0 <= j < i ==> scheme_char(#[trigger] chars@[j]),
        decreases chars@.len() - i,
    {
        let c = chars[i];
        if !(('a' <= c && c <= 'z') || ('0' <= c && c <= '9') || c == '+' || c == '-' || c == '.') {
            assert(!scheme_char(s@[i as int]));
            return false;
        }
        i += 1;
    }
    true
}

fn first_bad_scheme_at(schemes: &Vec<String>) -> (r: Option<usize>)
    ensures
        r is None <==> first_bad_scheme(schemes@, 0) is None,
        r matches Some(k) ==> k < schemes@.len() && first_bad_scheme(schemes@, 0) == Some(k as int),
{
    let mut k: usize = 0;
    while k < schemes.len()
        invariant
            k <= schemes@.len(),
            first_bad_scheme(schemes@, 0) == first_bad_scheme(schemes@, k as int),
        decreases schemes@.len() - k,
    {
        if !scheme_ok(schemes[k].as_str()) {
            return Some(k);
        }
        k += 1;
    }
    None
}

fn has_blank_name(properties: &Vec<(String, String)>) -> (r: bool)
    ensures
        r == exists|i: int| 0 <= i < properties@.len() && blank((#[trigger] properties@[i]).0@),
{
    let mut i: usize = 0;
    while i < properties.len()
        invariant
            i <= properties@.len(),
            forall|j: int| 0 <= j < i ==> !blank((#[trigger] properties@[j]).0@),
        decreases properties@.len() - i,
    {
        if is_blank(properties[i].0.as_str()) {
            return true;
        }
        i += 1;
    }
    false
}

impl DeviceCatalog {
    /// Check a catalog: its schema version, then each profile in order (a
    /// blank or repeated id, or a fragment that no table holds), then the
    /// display, media, connector and system tables, each in key order.
    pub fn validate(&self) -> (r: Result<(), ProfileError>)
        ensures
            match validate_spec(*self) {
                None => r is Ok,
                Some(m) => r matches Err(e) && e.0@ == m,
            },
    {
        if self.schema_version != PROFILE_SCHEMA_VERSION {
            let mut m = with_decimal("unsupported device profile schema ", self.schema_version as i64);
            m.append(", expected 1");
            return Err(ProfileError(m));
        }
        let mut i: usize = 0;
        while i < self.profiles.len()
            invariant
                i <= self.profiles@.len(),
                profiles_issue(*self, 0) == profiles_issue(*self, i as int),
                self.schema_version == 1,
            decreases self.profiles@.len() - i,
        {
            if is_blank(self.profiles[i].id.as_str()) || seen_before(&self.profiles, i) {
                return Err(
                    ProfileError(quoted_message("device profile id ", self.profiles[i].id.as_str(), " is empty or duplicated")),
                );
            }
            if let Err(e) = self.resolve_refs(&self.profiles[i]) {
                return Err(e);
            }
            i += 1;
        }
        let mut i: usize = 0;
        while i < self.display.len()
            invariant
                i <= self.display@.len(),
                first_bad_display(self.display@, 0) == first_bad_display(self.display@, i as int),
                self.schema_version == 1,
                profiles_issue(*self, 0) is None,
            decreases self.display@.len() - i,
        {
            if !display_ok(&self.display[i].1) {
                return Err(
                    ProfileError(quoted_message("display fragment ", self.display[i].0.as_str(), " has an invalid Java canvas dimension")),
                );
            }
            i += 1;
        }
        let mut i: usize = 0;
        while i < self.media.len()
            invariant
                i <= self.media@.len(),
                first_bad_media(self.media@, 0) == first_bad_media(self.media@, i as int),
                self.schema_version == 1,
                profiles_issue(*self, 0) is None,
                first_bad_display(self.display@, 0) is None,
            decreases self.media@.len() - i,
        {
            let renderer = self.media[i].1.midi_renderer.as_str();
            if !(same_text(renderer, "device") || same_text(renderer, "approximate") || same_text(renderer, "none")) {
                let mut m = quoted_message("media fragment ", self.media[i].0.as_str(), " has unknown midi_renderer ");
                let q = debug_quoted(renderer);
                m.append(q.as_str());
                return Err(ProfileError(m));
            }
            i += 1;
        }
        let mut i: usize = 0;
        while i < self.connector.len()
            invariant
                i <= self.connector@.len(),
                first_bad_connector(self.connector@, 0) == first_bad_connector(self.connector@, i as int),
                self.schema_version == 1,
                profiles_issue(*self, 0) is None,
                first_bad_display(self.display@, 0) is None,
                first_bad_media(self.media@, 0) is None,
            decreases self.connector@.len() - i,
        {
            if let Some(k) = first_bad_scheme_at(&self.connector[i].1.schemes) {
                let mut m = quoted_message(
                    "connector fragment ",
                    self.connector[i].0.as_str(),
                    " has invalid lowercase URI scheme ",
                );
                let q = debug_quoted(self.connector[i].1.schemes[k].as_str());
                m.append(q.as_str());
                proof {
                    assert(first_bad_connector(self.connector@, i as int) == Some(i as int));
                    assert(first_bad_connector(self.connector@, 0) == Some(i as int));
                    assert(self.connector_table()[i as int] == self.connector@[i as int]);
                    let f = self.connector@[i as int].1;
                    assert(first_bad_scheme(f.schemes@, 0) == Some(k as int));
                    assert(m@ == "connector fragment "@ + debug_text(self.connector@[i as int].0@) + " has invalid lowercase URI scheme "@ + debug_text(f.schemes@[k as int]@));
                }
                return Err(ProfileError(m));
            }
            i += 1;
        }
        let mut i: usize = 0;
        while i < self.system.len()
            invariant
                i <= self.system@.len(),
                first_bad_system(self.system@, 0) == first_bad_system(self.system@, i as int),
                self.schema_version == 1,
                profiles_issue(*self, 0) is None,
                first_bad_display(self.display@, 0) is None,
                first_bad_media(self.media@, 0) is None,
                first_bad_connector(self.connector@, 0) is None,
            decreases self.system@.len() - i,
        {
            let f = &self.system[i].1;
            if is_blank(f.default_charset.as_str()) {
                return Err(
                    ProfileError(quoted_message("system fragment ", self.system[i].0.as_str(), " has an empty default_charset")),
                );
            }
            if has_blank_name(&f.properties) {
                return Err(
                    ProfileError(quoted_message("system fragment ", self.system[i].0.as_str(), " has an empty property name")),
                );
            }
            i += 1;
        }
        Ok(())
    }
}

proof fn lemma_profiles_pass(c: DeviceCatalog, k: int, i: int)
    requires
        0 <= k <= i < c.profile_list().len(),
        profiles_issue(c, k) is None,
    ensures
        !bad_id(c.profile_list(), i),
        refs_issue(c, c.profile_list()[i]) is None,
    decreases i - k,
{
    if k < i {
        lemma_profiles_pass(c, k + 1, i);
    }
}

proof fn lemma_index_finds(ps: Seq<ProfileRefs>, m: int, i: int)
    requires
        0 <= m <= i < ps.len(),
        forall|j: int| 0 <= j < i ==> (#[trigger] ps[j]).id@ != ps[i].id@,
    ensures
        profile_index(ps, ps[i].id@, m) == Some(i),
    decreases i - m,
{
    if m < i {
        lemma_index_finds(ps, m + 1, i);
    }
}

/// A catalog that validates resolves every profile it lists: each id is
/// non-blank and names exactly one profile, and every fragment that profile
/// names is in its table.
pub proof fn lemma_validated_catalog_resolves(c: DeviceCatalog, i: int)
    requires
        validate_spec(c) is None,
        0 <= i < c.profile_list().len(),
    ensures
        !blank(c.profile_list()[i].id@),
        profile_index(c.profile_list(), c.profile_list()[i].id@, 0) == Some(i),
        refs_issue(c, c.profile_list()[i]) is None,
{
    lemma_profiles_pass(c, 0, i);
    let ps = c.profile_list();
    assert forall|j: int| 0 <= j < i implies (#[trigger] ps[j]).id@ != ps[i].id@ by {
        if ps[j].id@ == ps[i].id@ {
            assert(bad_id(ps, i));
        }
    }
    lemma_index_finds(ps, 0, i);
}

} // verus!
