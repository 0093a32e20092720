//! Built-in keyboard presets and the key-name parser used by config overrides.
//!
//! Both presets map a physical [`KeyCode`] to the same raw Nokia codes the phone
//! itself sent, so the game is driven identically either way — the mobile cluster
//! is host ergonomics, not a behavioural change.
//!
//! | keyboard                               | Nokia key      | code    |
//! |----------------------------------------|----------------|---------|
//! | Arrow Up/Down/Left/Right               | D-pad          | -1..=-4 |
//! | Enter, Space, Numpad Enter, Numpad 5   | Fire / select  | -5      |
//! | F1 / F2                                | soft keys      | -6/-7   |
//! | 0-9 (top row or numpad)                | number keys    | 48..=57 |
//! | Numpad `*` / `[`                       | star `*`       | 42      |
//! | `]` / `\`                              | pound `#`      | 35      |
//!
//! [`Preset::Mobile`] adds a left-hand cluster on top of every binding above:
//! W/A/S/D move, Q/E are the soft keys, X fires/confirms, and R/F reach the
//! phone's `*`/`#`. It is a strict superset — every Standard binding still
//! works — so it is the default.

use vstd::prelude::*;
use crate::input::nokia::{one_digit, one_digit_spec, prefixed_digit, strip_prefix, strip_prefix_spec, DOWN, FIRE, LEFT, POUND, RIGHT, SOFT_LEFT, SOFT_RIGHT, STAR, UP};
use crate::input::KeyCode;
use crate::text::{canonical_name, canonicalize, chars_eq, is_ascii_digit, is_ascii_lower, str_chars, trim, trim_bounds};

verus! {

/// A built-in set of default bindings.
#[derive(Clone, Copy, Debug, PartialEq, Eq, Structural)]
pub enum Preset {
    /// Arrows for the D-pad, Enter/Space for Fire, F1/F2 for the soft keys,
    /// number row + numpad for the digits, brackets for `*`/`#`.
    Standard,
    /// Everything in [`Standard`](Preset::Standard) plus the WASD/Q-E/X/R-F
    /// mobile cluster. A strict superset, and the default.
    Mobile,
}

impl Default for Preset {
    fn default() -> (r: Self)
        ensures
            r == Preset::Mobile,
    {
        Preset::Mobile
    }
}

/// The arrows/Enter/F-key/digit/bracket base shared by both presets.
pub open spec fn standard_spec(key: KeyCode) -> Option<i32> {
    match key {
        KeyCode::ArrowUp => Some(UP),
        KeyCode::ArrowDown => Some(DOWN),
        KeyCode::ArrowLeft => Some(LEFT),
        KeyCode::ArrowRight => Some(RIGHT),
        KeyCode::Enter | KeyCode::NumpadEnter | KeyCode::Space | KeyCode::Numpad5 => Some(FIRE),
        KeyCode::F1 => Some(SOFT_LEFT),
        KeyCode::F2 => Some(SOFT_RIGHT),
        KeyCode::Digit0 | KeyCode::Numpad0 => Some(48),
        KeyCode::Digit1 | KeyCode::Numpad1 => Some(49),
        KeyCode::Digit2 | KeyCode::Numpad2 => Some(50),
        KeyCode::Digit3 | KeyCode::Numpad3 => Some(51),
        KeyCode::Digit4 | KeyCode::Numpad4 => Some(52),
        KeyCode::Digit5 => Some(53),
        KeyCode::Digit6 | KeyCode::Numpad6 => Some(54),
        KeyCode::Digit7 | KeyCode::Numpad7 => Some(55),
        KeyCode::Digit8 | KeyCode::Numpad8 => Some(56),
        KeyCode::Digit9 | KeyCode::Numpad9 => Some(57),
        KeyCode::NumpadMultiply | KeyCode::BracketLeft => Some(STAR),
        KeyCode::BracketRight | KeyCode::Backslash => Some(POUND),
        _ => None,
    }
}

/// The mobile-only left-hand cluster layered over the standard bindings.
pub open spec fn mobile_cluster_spec(key: KeyCode) -> Option<i32> {
    match key {
        KeyCode::KeyW => Some(UP),
        KeyCode::KeyS => Some(DOWN),
        KeyCode::KeyA => Some(LEFT),
        KeyCode::KeyD => Some(RIGHT),
        KeyCode::KeyX => Some(FIRE),
        KeyCode::KeyQ => Some(SOFT_LEFT),
        KeyCode::KeyE => Some(SOFT_RIGHT),
        KeyCode::KeyR => Some(STAR),
        KeyCode::KeyF => Some(POUND),
        _ => None,
    }
}

/// The raw Nokia code a preset assigns to a key.
pub open spec fn preset_code(preset: Preset, key: KeyCode) -> Option<i32> {
    match preset {
        Preset::Standard => standard_spec(key),
        Preset::Mobile => match mobile_cluster_spec(key) {
            Some(c) => Some(c),
            None => standard_spec(key),
        },
    }
}

fn standard(key: KeyCode) -> (r: Option<i32>)
    ensures
        r == standard_spec(key),
{
    match key {
        KeyCode::ArrowUp => Some(UP),
        KeyCode::ArrowDown => Some(DOWN),
        KeyCode::ArrowLeft => Some(LEFT),
        KeyCode::ArrowRight => Some(RIGHT),
        KeyCode::Enter | KeyCode::NumpadEnter | KeyCode::Space | KeyCode::Numpad5 => Some(FIRE),
        KeyCode::F1 => Some(SOFT_LEFT),
        KeyCode::F2 => Some(SOFT_RIGHT),
        KeyCode::Digit0 | KeyCode::Numpad0 => Some(48),
        KeyCode::Digit1 | KeyCode::Numpad1 => Some(49),
        KeyCode::Digit2 | KeyCode::Numpad2 => Some(50),
        KeyCode::Digit3 | KeyCode::Numpad3 => Some(51),
        KeyCode::Digit4 | KeyCode::Numpad4 => Some(52),
        KeyCode::Digit5 => Some(53),
        KeyCode::Digit6 | KeyCode::Numpad6 => Some(54),
        KeyCode::Digit7 | KeyCode::Numpad7 => Some(55),
        KeyCode::Digit8 | KeyCode::Numpad8 => Some(56),
        KeyCode::Digit9 | KeyCode::Numpad9 => Some(57),
        KeyCode::NumpadMultiply | KeyCode::BracketLeft => Some(STAR),
        KeyCode::BracketRight | KeyCode::Backslash => Some(POUND),
        _ => None,
    }
}

fn mobile_cluster(key: KeyCode) -> (r: Option<i32>)
    ensures
        r == mobile_cluster_spec(key),
{
    match key {
        KeyCode::KeyW => Some(UP),
        KeyCode::KeyS => Some(DOWN),
        KeyCode::KeyA => Some(LEFT),
        KeyCode::KeyD => Some(RIGHT),
        KeyCode::KeyX => Some(FIRE),
        KeyCode::KeyQ => Some(SOFT_LEFT),
        KeyCode::KeyE => Some(SOFT_RIGHT),
        KeyCode::KeyR => Some(STAR),
        KeyCode::KeyF => Some(POUND),
        _ => None,
    }
}

/// `s` with ASCII uppercase letters lowercased.
pub open spec fn ascii_lowercase_spec(s: Seq<char>) -> Seq<char> {
    s.map(|i: int, c: char| if 'A' <= c <= 'Z' { ((c as u32) + 32) as char } else { c })
}

pub(crate) fn ascii_lowercase(chars: &[char], from: usize, to: usize) -> (r: Vec<char>)
    requires
        from <= to <= chars@.len(),
    ensures
        r@ == ascii_lowercase_spec(chars@.subrange(from as int, to as int)),
{
    let mut out: Vec<char> = Vec::new();
    let mut i = from;
    while i < to
        invariant
            from <= i <= to <= chars@.len(),
            out@ == ascii_lowercase_spec(chars@.subrange(from as int, i as int)),
        decreases to - i,
    {
        let c = chars[i];
        let lower = if 'A' <= c && c <= 'Z' { ((c as u32 + 32) as u8) as char } else { c };
        out.push(lower);
        i += 1;
        proof {
            assert(out@ =~= ascii_lowercase_spec(chars@.subrange(from as int, i as int)));
        }
    }
    out
}

/// What a preset name means (trimmed, ASCII case ignored).
pub open spec fn preset_from_name_spec(name: Seq<char>) -> Option<Preset> {
    let (from, to) = trim_bounds(name, 0, name.len() as int);
    let folded = ascii_lowercase_spec(name.subrange(from, to));
    if folded == "standard"@ || folded == "default"@ || folded == "desktop"@ || folded == "arrows"@ {
        Some(Preset::Standard)
    } else if folded == "mobile"@ || folded == "wasd"@ || folded == "phone"@ {
        Some(Preset::Mobile)
    } else {
        None
    }
}

impl Preset {
    /// The raw Nokia code this preset assigns to `key`, or `None` if the preset
    /// leaves the key unbound.
    pub fn nokia_code(self, key: KeyCode) -> (r: Option<i32>)
        ensures
            r == preset_code(self, key),
    {
        match self {
            Preset::Standard => standard(key),
            Preset::Mobile => match mobile_cluster(key) {
                Some(c) => Some(c),
                None => standard(key),
            },
        }
    }

    /// Parse a preset name (case-insensitive): `standard`/`default`/`desktop`/
    /// `arrows` -> [`Standard`](Preset::Standard); `mobile`/`wasd`/`phone` ->
    /// [`Mobile`](Preset::Mobile). Returns `None` for anything else.
    pub fn from_name(name: &str) -> (r: Option<Preset>)
        ensures
            r == preset_from_name_spec(name@),
    {
        let chars = str_chars(name);
        proof {
            assert(chars@.subrange(0, chars@.len() as int) =~= name@);
        }
        Self::from_chars(&chars, 0, chars.len())
    }

    /// [`from_name`](Self::from_name) on `chars[from..to]`.
    pub fn from_chars(chars: &[char], from: usize, to: usize) -> (r: Option<Preset>)
        requires
            from <= to <= chars@.len(),
        ensures
            r == preset_from_name_spec(chars@.subrange(from as int, to as int)),
    {
        let ghost name = chars@.subrange(from as int, to as int);
        let (start, end) = trim(chars, from, to);
        proof {
            crate::text::lemma_trim_shift(chars@, from as int, to as int);
            assert(name.subrange(start - from, end - from) =~= chars@.subrange(start as int, end as int));
        }
        let folded = ascii_lowercase(chars, start, end);
        let n = folded.len();
        proof {
            assert(folded@.subrange(0, n as int) =~= folded@);
        }
        if chars_eq(&folded, 0, n, "standard") || chars_eq(&folded, 0, n, "default") || chars_eq(&folded, 0, n, "desktop")
            || chars_eq(&folded, 0, n, "arrows") {
            Some(Preset::Standard)
        } else if chars_eq(&folded, 0, n, "mobile") || chars_eq(&folded, 0, n, "wasd") || chars_eq(&folded, 0, n, "phone") {
            Some(Preset::Mobile)
        } else {
            None
        }
    }
}

/// ASCII lowercase letter -> `KeyCode::Key*`.
pub open spec fn letter_spec(c: char) -> Option<KeyCode> {
    if c == 'a' {
        Some(KeyCode::KeyA)
    } else if c == 'b' {
        Some(KeyCode::KeyB)
    } else if c == 'c' {
        Some(KeyCode::KeyC)
    } else if c == 'd' {
        Some(KeyCode::KeyD)
    } else if c == 'e' {
        Some(KeyCode::KeyE)
    } else if c == 'f' {
        Some(KeyCode::KeyF)
    } else if c == 'g' {
        Some(KeyCode::KeyG)
    } else if c == 'h' {
        Some(KeyCode::KeyH)
    } else if c == 'i' {
        Some(KeyCode::KeyI)
    } else if c == 'j' {
        Some(KeyCode::KeyJ)
    } else if c == 'k' {
        Some(KeyCode::KeyK)
    } else if c == 'l' {
        Some(KeyCode::KeyL)
    } else if c == 'm' {
        Some(KeyCode::KeyM)
    } else if c == 'n' {
        Some(KeyCode::KeyN)
    } else if c == 'o' {
        Some(KeyCode::KeyO)
    } else if c == 'p' {
        Some(KeyCode::KeyP)
    } else if c == 'q' {
        Some(KeyCode::KeyQ)
    } else if c == 'r' {
        Some(KeyCode::KeyR)
    } else if c == 's' {
        Some(KeyCode::KeyS)
    } else if c == 't' {
        Some(KeyCode::KeyT)
    } else if c == 'u' {
        Some(KeyCode::KeyU)
    } else if c == 'v' {
        Some(KeyCode::KeyV)
    } else if c == 'w' {
        Some(KeyCode::KeyW)
    } else if c == 'x' {
        Some(KeyCode::KeyX)
    } else if c == 'y' {
        Some(KeyCode::KeyY)
    } else if c == 'z' {
        Some(KeyCode::KeyZ)
    } else {
        None
    }
}

fn letter_key(c: char) -> (r: Option<KeyCode>)
    ensures
        r == letter_spec(c),
{
    if c == 'a' {
        Some(KeyCode::KeyA)
    } else if c == 'b' {
        Some(KeyCode::KeyB)
    } else if c == 'c' {
        Some(KeyCode::KeyC)
    } else if c == 'd' {
        Some(KeyCode::KeyD)
    } else if c == 'e' {
        Some(KeyCode::KeyE)
    } else if c == 'f' {
        Some(KeyCode::KeyF)
    } else if c == 'g' {
        Some(KeyCode::KeyG)
    } else if c == 'h' {
        Some(KeyCode::KeyH)
    } else if c == 'i' {
        Some(KeyCode::KeyI)
    } else if c == 'j' {
        Some(KeyCode::KeyJ)
    } else if c == 'k' {
        Some(KeyCode::KeyK)
    } else if c == 'l' {
        Some(KeyCode::KeyL)
    } else if c == 'm' {
        Some(KeyCode::KeyM)
    } else if c == 'n' {
        Some(KeyCode::KeyN)
    } else if c == 'o' {
        Some(KeyCode::KeyO)
    } else if c == 'p' {
        Some(KeyCode::KeyP)
    } else if c == 'q' {
        Some(KeyCode::KeyQ)
    } else if c == 'r' {
        Some(KeyCode::KeyR)
    } else if c == 's' {
        Some(KeyCode::KeyS)
    } else if c == 't' {
        Some(KeyCode::KeyT)
    } else if c == 'u' {
        Some(KeyCode::KeyU)
    } else if c == 'v' {
        Some(KeyCode::KeyV)
    } else if c == 'w' {
        Some(KeyCode::KeyW)
    } else if c == 'x' {
        Some(KeyCode::KeyX)
    } else if c == 'y' {
        Some(KeyCode::KeyY)
    } else if c == 'z' {
        Some(KeyCode::KeyZ)
    } else {
        None
    }
}

/// `0..=9` -> the top-row `KeyCode::Digit*`.
pub open spec fn digit_key_spec(n: u8) -> Option<KeyCode> {
    if n == 0 {
        Some(KeyCode::Digit0)
    } else if n == 1 {
        Some(KeyCode::Digit1)
    } else if n == 2 {
        Some(KeyCode::Digit2)
    } else if n == 3 {
        Some(KeyCode::Digit3)
    } else if n == 4 {
        Some(KeyCode::Digit4)
    } else if n == 5 {
        Some(KeyCode::Digit5)
    } else if n == 6 {
        Some(KeyCode::Digit6)
    } else if n == 7 {
        Some(KeyCode::Digit7)
    } else if n == 8 {
        Some(KeyCode::Digit8)
    } else if n == 9 {
        Some(KeyCode::Digit9)
    } else {
        None
    }
}

fn digit_key(n: u8) -> (r: Option<KeyCode>)
    ensures
        r == digit_key_spec(n),
{
    if n == 0 {
        Some(KeyCode::Digit0)
    } else if n == 1 {
        Some(KeyCode::Digit1)
    } else if n == 2 {
        Some(KeyCode::Digit2)
    } else if n == 3 {
        Some(KeyCode::Digit3)
    } else if n == 4 {
        Some(KeyCode::Digit4)
    } else if n == 5 {
        Some(KeyCode::Digit5)
    } else if n == 6 {
        Some(KeyCode::Digit6)
    } else if n == 7 {
        Some(KeyCode::Digit7)
    } else if n == 8 {
        Some(KeyCode::Digit8)
    } else if n == 9 {
        Some(KeyCode::Digit9)
    } else {
        None
    }
}

/// `0..=9` -> the `KeyCode::Numpad*` equivalent.
pub open spec fn numpad_key_spec(n: u8) -> Option<KeyCode> {
    if n == 0 {
        Some(KeyCode::Numpad0)
    } else if n == 1 {
        Some(KeyCode::Numpad1)
    } else if n == 2 {
        Some(KeyCode::Numpad2)
    } else if n == 3 {
        Some(KeyCode::Numpad3)
    } else if n == 4 {
        Some(KeyCode::Numpad4)
    } else if n == 5 {
        Some(KeyCode::Numpad5)
    } else if n == 6 {
        Some(KeyCode::Numpad6)
    } else if n == 7 {
        Some(KeyCode::Numpad7)
    } else if n == 8 {
        Some(KeyCode::Numpad8)
    } else if n == 9 {
        Some(KeyCode::Numpad9)
    } else {
        None
    }
}

fn numpad_key(n: u8) -> (r: Option<KeyCode>)
    ensures
        r == numpad_key_spec(n),
{
    if n == 0 {
        Some(KeyCode::Numpad0)
    } else if n == 1 {
        Some(KeyCode::Numpad1)
    } else if n == 2 {
        Some(KeyCode::Numpad2)
    } else if n == 3 {
        Some(KeyCode::Numpad3)
    } else if n == 4 {
        Some(KeyCode::Numpad4)
    } else if n == 5 {
        Some(KeyCode::Numpad5)
    } else if n == 6 {
        Some(KeyCode::Numpad6)
    } else if n == 7 {
        Some(KeyCode::Numpad7)
    } else if n == 8 {
        Some(KeyCode::Numpad8)
    } else if n == 9 {
        Some(KeyCode::Numpad9)
    } else {
        None
    }
}

/// `1..=12` -> the function key.
pub open spec fn function_number_spec(n: nat) -> Option<KeyCode> {
    if n == 1 {
        Some(KeyCode::F1)
    } else if n == 2 {
        Some(KeyCode::F2)
    } else if n == 3 {
        Some(KeyCode::F3)
    } else if n == 4 {
        Some(KeyCode::F4)
    } else if n == 5 {
        Some(KeyCode::F5)
    } else if n == 6 {
        Some(KeyCode::F6)
    } else if n == 7 {
        Some(KeyCode::F7)
    } else if n == 8 {
        Some(KeyCode::F8)
    } else if n == 9 {
        Some(KeyCode::F9)
    } else if n == 10 {
        Some(KeyCode::F10)
    } else if n == 11 {
        Some(KeyCode::F11)
    } else if n == 12 {
        Some(KeyCode::F12)
    } else {
        None
    }
}

fn function_number(n: u32) -> (r: Option<KeyCode>)
    ensures
        r == function_number_spec(n as nat),
{
    if n == 1 {
        Some(KeyCode::F1)
    } else if n == 2 {
        Some(KeyCode::F2)
    } else if n == 3 {
        Some(KeyCode::F3)
    } else if n == 4 {
        Some(KeyCode::F4)
    } else if n == 5 {
        Some(KeyCode::F5)
    } else if n == 6 {
        Some(KeyCode::F6)
    } else if n == 7 {
        Some(KeyCode::F7)
    } else if n == 8 {
        Some(KeyCode::F8)
    } else if n == 9 {
        Some(KeyCode::F9)
    } else if n == 10 {
        Some(KeyCode::F10)
    } else if n == 11 {
        Some(KeyCode::F11)
    } else if n == 12 {
        Some(KeyCode::F12)
    } else {
        None
    }
}


/// The value of a run of ASCII digits.
pub open spec fn digits_value(s: Seq<char>) -> nat
    decreases s.len(),
{
    if s.len() == 0 {
        0
    } else {
        digits_value(s.drop_last()) * 10 + ((s.last() as u32) - 48) as nat
    }
}

/// The digits of an unsigned number: the text after an optional `+`.
pub open spec fn unsigned_digits(s: Seq<char>) -> Seq<char> {
    if s.len() > 0 && s[0] == '+' { s.drop_first() } else { s }
}

/// `str::parse::<u8>`: an optional `+`, then one or more ASCII digits whose
/// value fits in a byte.
pub open spec fn parse_u8_spec(s: Seq<char>) -> Option<nat> {
    let digits = unsigned_digits(s);
    if digits.len() == 0 || !(forall|i: int| 0 <= i < digits.len() ==> is_ascii_digit(#[trigger] digits[i])) {
        None
    } else if digits_value(digits) > 255 {
        None
    } else {
        Some(digits_value(digits))
    }
}

/// `f1`..`f12` (after the `f`) -> the corresponding function key.
pub open spec fn function_key_spec(rest: Seq<char>) -> Option<KeyCode> {
    match parse_u8_spec(rest) {
        Some(n) => function_number_spec(n),
        None => None,
    }
}

proof fn lemma_digits_value_monotone(s: Seq<char>, k: int)
    requires
        0 <= k <= s.len(),
        forall|i: int| 0 <= i < s.len() ==> is_ascii_digit(#[trigger] s[i]),
    ensures
        digits_value(s.subrange(0, k)) <= digits_value(s),
    decreases s.len() - k,
{
    if k < s.len() {
        lemma_digits_value_monotone(s, k + 1);
        assert(s.subrange(0, k + 1).drop_last() =~= s.subrange(0, k));
    } else {
        assert(s.subrange(0, k) =~= s);
    }
}

fn function_key(chars: &[char], from: usize) -> (r: Option<KeyCode>)
    requires
        from <= chars@.len(),
    ensures
        r == function_key_spec(chars@.subrange(from as int, chars@.len() as int)),
{
    let ghost rest = chars@.subrange(from as int, chars@.len() as int);
    let mut start = from;
    if start < chars.len() && chars[start] == '+' {
        start = start + 1;
    }
    let ghost digits = chars@.subrange(start as int, chars@.len() as int);
    proof {
        if from < chars@.len() && chars@[from as int] == '+' {
            assert(rest.drop_first() =~= digits);
        } else {
            assert(rest =~= digits);
        }
    }
    if start == chars.len() {
        return None;
    }
    let mut value: u32 = 0;
    let mut i = start;
    while i < chars.len()
        invariant
            start <= i <= chars@.len(),
            digits == chars@.subrange(start as int, chars@.len() as int),
            unsigned_digits(rest) == digits,
            rest == chars@.subrange(from as int, chars@.len() as int),
            forall|j: int| start <= j < i ==> is_ascii_digit(#[trigger] chars@[j]),
            value == (if digits_value(chars@.subrange(start as int, i as int)) > 256 {
                256
            } else {
                digits_value(chars@.subrange(start as int, i as int))
            }),
        decreases chars@.len() - i,
    {
        let c = chars[i];
        if !('0' <= c && c <= '9') {
            proof {
                assert(digits[i - start] == c);
                assert(!is_ascii_digit(digits[i - start]));
            }
            return None;
        }
        proof {
            assert(chars@.subrange(start as int, i + 1).drop_last() =~= chars@.subrange(start as int, i as int));
        }
        let d = c as u32 - 48;
        value = if value * 10 + d > 256 { 256 } else { value * 10 + d };
        i += 1;
    }
    proof {
        assert(chars@.subrange(start as int, i as int) =~= digits);
        assert forall|j: int| 0 <= j < digits.len() implies is_ascii_digit(#[trigger] digits[j]) by {
            assert(digits[j] == chars@[start + j]);
        }
    }
    if value > 255 {
        return None;
    }
    function_number(value)
}

/// The named keys, by canonical name.
pub open spec fn named_key_spec(canon: Seq<char>) -> Option<KeyCode> {
    if canon == "arrowup"@ || canon == "up"@ {
        Some(KeyCode::ArrowUp)
    } else if canon == "arrowdown"@ || canon == "down"@ {
        Some(KeyCode::ArrowDown)
    } else if canon == "arrowleft"@ || canon == "left"@ {
        Some(KeyCode::ArrowLeft)
    } else if canon == "arrowright"@ || canon == "right"@ {
        Some(KeyCode::ArrowRight)
    } else if canon == "space"@ || canon == "spacebar"@ {
        Some(KeyCode::Space)
    } else if canon == "enter"@ || canon == "return"@ {
        Some(KeyCode::Enter)
    } else if canon == "numpadenter"@ || canon == "kpenter"@ {
        Some(KeyCode::NumpadEnter)
    } else if canon == "escape"@ || canon == "esc"@ {
        Some(KeyCode::Escape)
    } else if canon == "tab"@ {
        Some(KeyCode::Tab)
    } else if canon == "backspace"@ {
        Some(KeyCode::Backspace)
    } else if canon == "delete"@ || canon == "del"@ {
        Some(KeyCode::Delete)
    } else if canon == "insert"@ || canon == "ins"@ {
        Some(KeyCode::Insert)
    } else if canon == "home"@ {
        Some(KeyCode::Home)
    } else if canon == "end"@ {
        Some(KeyCode::End)
    } else if canon == "pageup"@ || canon == "pgup"@ {
        Some(KeyCode::PageUp)
    } else if canon == "pagedown"@ || canon == "pgdn"@ {
        Some(KeyCode::PageDown)
    } else if canon == "numpadmultiply"@ || canon == "numpadstar"@ || canon == "kpmultiply"@ || canon == "kpstar"@ {
        Some(KeyCode::NumpadMultiply)
    } else if canon == "numpadadd"@ || canon == "numpadplus"@ || canon == "kpadd"@ || canon == "kpplus"@ {
        Some(KeyCode::NumpadAdd)
    } else if canon == "numpadsubtract"@ || canon == "numpadminus"@ || canon == "kpsubtract"@ || canon == "kpminus"@ {
        Some(KeyCode::NumpadSubtract)
    } else if canon == "numpaddivide"@ || canon == "kpdivide"@ {
        Some(KeyCode::NumpadDivide)
    } else if canon == "numpaddecimal"@ || canon == "kpdecimal"@ {
        Some(KeyCode::NumpadDecimal)
    } else if canon == "bracketleft"@ || canon == "leftbracket"@ || canon == "lbracket"@ || canon == "openbracket"@ {
        Some(KeyCode::BracketLeft)
    } else if canon == "bracketright"@ || canon == "rightbracket"@ || canon == "rbracket"@ || canon == "closebracket"@ {
        Some(KeyCode::BracketRight)
    } else if canon == "backslash"@ {
        Some(KeyCode::Backslash)
    } else if canon == "slash"@ {
        Some(KeyCode::Slash)
    } else if canon == "semicolon"@ {
        Some(KeyCode::Semicolon)
    } else if canon == "quote"@ || canon == "apostrophe"@ {
        Some(KeyCode::Quote)
    } else if canon == "comma"@ {
        Some(KeyCode::Comma)
    } else if canon == "period"@ || canon == "dot"@ {
        Some(KeyCode::Period)
    } else if canon == "minus"@ || canon == "dash"@ {
        Some(KeyCode::Minus)
    } else if canon == "equal"@ || canon == "equals"@ {
        Some(KeyCode::Equal)
    } else if canon == "backquote"@ || canon == "grave"@ || canon == "backtick"@ {
        Some(KeyCode::Backquote)
    } else if canon == "shiftleft"@ || canon == "lshift"@ || canon == "leftshift"@ {
        Some(KeyCode::ShiftLeft)
    } else if canon == "shiftright"@ || canon == "rshift"@ || canon == "rightshift"@ {
        Some(KeyCode::ShiftRight)
    } else if canon == "controlleft"@ || canon == "lctrl"@ || canon == "lcontrol"@ || canon == "leftctrl"@ {
        Some(KeyCode::ControlLeft)
    } else if canon == "controlright"@ || canon == "rctrl"@ || canon == "rcontrol"@ || canon == "rightctrl"@ {
        Some(KeyCode::ControlRight)
    } else if canon == "altleft"@ || canon == "lalt"@ || canon == "leftalt"@ {
        Some(KeyCode::AltLeft)
    } else if canon == "altright"@ || canon == "ralt"@ || canon == "rightalt"@ {
        Some(KeyCode::AltRight)
    } else {
        None
    }
}

fn named_key(canon: &[char]) -> (r: Option<KeyCode>)
    ensures
        r == named_key_spec(canon@),
{
    let n = canon.len();
    proof {
        assert(canon@.subrange(0, n as int) =~= canon@);
    }
    if chars_eq(canon, 0, n, "arrowup") || chars_eq(canon, 0, n, "up") {
        Some(KeyCode::ArrowUp)
    } else if chars_eq(canon, 0, n, "arrowdown") || chars_eq(canon, 0, n, "down") {
        Some(KeyCode::ArrowDown)
    } else if chars_eq(canon, 0, n, "arrowleft") || chars_eq(canon, 0, n, "left") {
        Some(KeyCode::ArrowLeft)
    } else if chars_eq(canon, 0, n, "arrowright") || chars_eq(canon, 0, n, "right") {
        Some(KeyCode::ArrowRight)
    } else if chars_eq(canon, 0, n, "space") || chars_eq(canon, 0, n, "spacebar") {
        Some(KeyCode::Space)
    } else if chars_eq(canon, 0, n, "enter") || chars_eq(canon, 0, n, "return") {
        Some(KeyCode::Enter)
    } else if chars_eq(canon, 0, n, "numpadenter") || chars_eq(canon, 0, n, "kpenter") {
        Some(KeyCode::NumpadEnter)
    } else if chars_eq(canon, 0, n, "escape") || chars_eq(canon, 0, n, "esc") {
        Some(KeyCode::Escape)
    } else if chars_eq(canon, 0, n, "tab") {
        Some(KeyCode::Tab)
    } else if chars_eq(canon, 0, n, "backspace") {
        Some(KeyCode::Backspace)
    } else if chars_eq(canon, 0, n, "delete") || chars_eq(canon, 0, n, "del") {
        Some(KeyCode::Delete)
    } else if chars_eq(canon, 0, n, "insert") || chars_eq(canon, 0, n, "ins") {
        Some(KeyCode::Insert)
    } else if chars_eq(canon, 0, n, "home") {
        Some(KeyCode::Home)
    } else if chars_eq(canon, 0, n, "end") {
        Some(KeyCode::End)
    } else if chars_eq(canon, 0, n, "pageup") || chars_eq(canon, 0, n, "pgup") {
        Some(KeyCode::PageUp)
    } else if chars_eq(canon, 0, n, "pagedown") || chars_eq(canon, 0, n, "pgdn") {
        Some(KeyCode::PageDown)
    } else if chars_eq(canon, 0, n, "numpadmultiply") || chars_eq(canon, 0, n, "numpadstar") || chars_eq(canon, 0, n, "kpmultiply") || chars_eq(canon, 0, n, "kpstar") {
        Some(KeyCode::NumpadMultiply)
    } else if chars_eq(canon, 0, n, "numpadadd") || chars_eq(canon, 0, n, "numpadplus") || chars_eq(canon, 0, n, "kpadd") || chars_eq(canon, 0, n, "kpplus") {
        Some(KeyCode::NumpadAdd)
    } else if chars_eq(canon, 0, n, "numpadsubtract") || chars_eq(canon, 0, n, "numpadminus") || chars_eq(canon, 0, n, "kpsubtract") || chars_eq(canon, 0, n, "kpminus") {
        Some(KeyCode::NumpadSubtract)
    } else if chars_eq(canon, 0, n, "numpaddivide") || chars_eq(canon, 0, n, "kpdivide") {
        Some(KeyCode::NumpadDivide)
    } else if chars_eq(canon, 0, n, "numpaddecimal") || chars_eq(canon, 0, n, "kpdecimal") {
        Some(KeyCode::NumpadDecimal)
    } else if chars_eq(canon, 0, n, "bracketleft") || chars_eq(canon, 0, n, "leftbracket") || chars_eq(canon, 0, n, "lbracket") || chars_eq(canon, 0, n, "openbracket") {
        Some(KeyCode::BracketLeft)
    } else if chars_eq(canon, 0, n, "bracketright") || chars_eq(canon, 0, n, "rightbracket") || chars_eq(canon, 0, n, "rbracket") || chars_eq(canon, 0, n, "closebracket") {
        Some(KeyCode::BracketRight)
    } else if chars_eq(canon, 0, n, "backslash") {
        Some(KeyCode::Backslash)
    } else if chars_eq(canon, 0, n, "slash") {
        Some(KeyCode::Slash)
    } else if chars_eq(canon, 0, n, "semicolon") {
        Some(KeyCode::Semicolon)
    } else if chars_eq(canon, 0, n, "quote") || chars_eq(canon, 0, n, "apostrophe") {
        Some(KeyCode::Quote)
    } else if chars_eq(canon, 0, n, "comma") {
        Some(KeyCode::Comma)
    } else if chars_eq(canon, 0, n, "period") || chars_eq(canon, 0, n, "dot") {
        Some(KeyCode::Period)
    } else if chars_eq(canon, 0, n, "minus") || chars_eq(canon, 0, n, "dash") {
        Some(KeyCode::Minus)
    } else if chars_eq(canon, 0, n, "equal") || chars_eq(canon, 0, n, "equals") {
        Some(KeyCode::Equal)
    } else if chars_eq(canon, 0, n, "backquote") || chars_eq(canon, 0, n, "grave") || chars_eq(canon, 0, n, "backtick") {
        Some(KeyCode::Backquote)
    } else if chars_eq(canon, 0, n, "shiftleft") || chars_eq(canon, 0, n, "lshift") || chars_eq(canon, 0, n, "leftshift") {
        Some(KeyCode::ShiftLeft)
    } else if chars_eq(canon, 0, n, "shiftright") || chars_eq(canon, 0, n, "rshift") || chars_eq(canon, 0, n, "rightshift") {
        Some(KeyCode::ShiftRight)
    } else if chars_eq(canon, 0, n, "controlleft") || chars_eq(canon, 0, n, "lctrl") || chars_eq(canon, 0, n, "lcontrol") || chars_eq(canon, 0, n, "leftctrl") {
        Some(KeyCode::ControlLeft)
    } else if chars_eq(canon, 0, n, "controlright") || chars_eq(canon, 0, n, "rctrl") || chars_eq(canon, 0, n, "rcontrol") || chars_eq(canon, 0, n, "rightctrl") {
        Some(KeyCode::ControlRight)
    } else if chars_eq(canon, 0, n, "altleft") || chars_eq(canon, 0, n, "lalt") || chars_eq(canon, 0, n, "leftalt") {
        Some(KeyCode::AltLeft)
    } else if chars_eq(canon, 0, n, "altright") || chars_eq(canon, 0, n, "ralt") || chars_eq(canon, 0, n, "rightalt") {
        Some(KeyCode::AltRight)
    } else {
        None
    }
}


/// Resolve a key name to a physical key: variant names (`KeyW`, `ArrowUp`,
/// `F1`, `NumpadMultiply`, ...) and friendly aliases (`W`, `Up`, `Space`,
/// `Esc`, `0`, `KP3`, ...), compared in canonical form.
pub open spec fn key_from_name_spec(name: Seq<char>) -> Option<KeyCode> {
    let canon = canonical_name(name);
    if canon.len() == 1 && is_ascii_lower(canon[0]) {
        letter_spec(canon[0])
    } else if canon.len() == 1 && is_ascii_digit(canon[0]) {
        digit_key_spec(((canon[0] as u32) - 48) as u8)
    } else if strip_prefix_spec(canon, "key"@) is Some && strip_prefix_spec(canon, "key"@)->0.len() == 1
        && is_ascii_lower(strip_prefix_spec(canon, "key"@)->0[0]) {
        letter_spec(strip_prefix_spec(canon, "key"@)->0[0])
    } else if prefixed_digit(canon, "digit"@) is Some {
        digit_key_spec(prefixed_digit(canon, "digit"@)->0)
    } else if prefixed_digit(canon, "numpad"@) is Some {
        numpad_key_spec(prefixed_digit(canon, "numpad"@)->0)
    } else if prefixed_digit(canon, "kp"@) is Some {
        numpad_key_spec(prefixed_digit(canon, "kp"@)->0)
    } else if strip_prefix_spec(canon, "f"@) is Some && function_key_spec(strip_prefix_spec(canon, "f"@)->0) is Some {
        function_key_spec(strip_prefix_spec(canon, "f"@)->0)
    } else {
        named_key_spec(canon)
    }
}

/// Resolve a key name from a config file to a physical [`KeyCode`].
///
/// Accepts variant names (`KeyW`, `ArrowUp`, `F1`, `NumpadMultiply`, ...) and
/// friendly aliases (`W`, `Up`, `Space`, `Esc`, `0`, `KP3`, ...). Separators
/// `_`, `-`, and spaces are ignored and matching is case-insensitive. Returns
/// `None` for an unrecognised name (the caller reports it as a config error).
pub fn key_from_name(name: &str) -> (r: Option<KeyCode>)
    ensures
        r == key_from_name_spec(name@),
{
    let chars = str_chars(name);
    proof {
        assert(chars@.subrange(0, chars@.len() as int) =~= name@);
    }
    key_from_chars(&chars, 0, chars.len())
}

/// [`key_from_name`] on `chars[from..to]`.
pub fn key_from_chars(chars: &[char], from: usize, to: usize) -> (r: Option<KeyCode>)
    requires
        from <= to <= chars@.len(),
    ensures
        r == key_from_name_spec(chars@.subrange(from as int, to as int)),
{
    let canon = canonicalize(chars, from, to);
    let n = canon.len();
    proof {
        assert(canon@.subrange(0, n as int) =~= canon@);
    }
    if n == 1 && 'a' <= canon[0] && canon[0] <= 'z' {
        return letter_key(canon[0]);
    }
    if n == 1 && '0' <= canon[0] && canon[0] <= '9' {
        return digit_key((canon[0] as u32 - 48) as u8);
    }
    if let Some(at) = strip_prefix(&canon, 0, "key") {
        if n - at == 1 && 'a' <= canon[at] && canon[at] <= 'z' {
            return letter_key(canon[at]);
        }
    }
    if let Some(at) = strip_prefix(&canon, 0, "digit") {
        if let Some(d) = one_digit(&canon, at, n) {
            return digit_key(d);
        }
    }
    if let Some(at) = strip_prefix(&canon, 0, "numpad") {
        if let Some(d) = one_digit(&canon, at, n) {
            return numpad_key(d);
        }
    }
    if let Some(at) = strip_prefix(&canon, 0, "kp") {
        if let Some(d) = one_digit(&canon, at, n) {
            return numpad_key(d);
        }
    }
    if let Some(at) = strip_prefix(&canon, 0, "f") {
        if let Some(fk) = function_key(&canon, at) {
            return Some(fk);
        }
    }
    named_key(&canon)
}

} // verus!
