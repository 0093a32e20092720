//! Browser keyboard input: `KeyboardEvent.code` names to the same semantic
//! handset vocabulary the native keymap uses. The device profile performs the
//! second hop, to the raw code.

use vstd::prelude::*;
use crate::device::{key_code_spec, HandsetKey, InputFragment};
use crate::text::{chars_eq, str_chars};

verus! {

/// The handset key a `KeyboardEvent.code` name stands for.
pub open spec fn browser_key_spec(code: Seq<char>) -> Option<HandsetKey> {
    if code == "ArrowUp"@ || code == "KeyW"@ {
        Some(HandsetKey::Up)
    } else if code == "ArrowDown"@ || code == "KeyS"@ {
        Some(HandsetKey::Down)
    } else if code == "ArrowLeft"@ || code == "KeyA"@ {
        Some(HandsetKey::Left)
    } else if code == "ArrowRight"@ || code == "KeyD"@ {
        Some(HandsetKey::Right)
    } else if code == "Enter"@ || code == "Space"@ || code == "NumpadEnter"@ || code == "KeyX"@ {
        Some(HandsetKey::Fire)
    } else if code == "F1"@ || code == "KeyQ"@ {
        Some(HandsetKey::SoftLeft)
    } else if code == "F2"@ || code == "KeyE"@ {
        Some(HandsetKey::SoftRight)
    } else if code == "KeyR"@ || code == "NumpadMultiply"@ {
        Some(HandsetKey::Star)
    } else if code == "KeyF"@ {
        Some(HandsetKey::Pound)
    } else if code.len() == 6 && code.subrange(0, 5) == "Digit"@ {
        trailing_digit(code[5])
    } else if code.len() == 7 && code.subrange(0, 6) == "Numpad"@ {
        trailing_digit(code[6])
    } else {
        None
    }
}

/// `'0'`..=`'9'` as a digit key.
pub open spec fn trailing_digit(c: char) -> Option<HandsetKey> {
    if '0' <= c <= '9' {
        Some(HandsetKey::Digit(((c as u32) - 48) as u8))
    } else {
        None
    }
}

fn digit_key(c: char) -> (r: Option<HandsetKey>)
    ensures
        r == trailing_digit(c),
{
    if '0' <= c && c <= '9' {
        Some(HandsetKey::Digit((c as u32 - 48) as u8))
    } else {
        None
    }
}

/// Browser `KeyboardEvent.code` to the semantic handset key, or `None` for a
/// key the handset does not have.
pub fn handset_key(code: &str) -> (r: Option<HandsetKey>)
    ensures
        r == browser_key_spec(code@),
{
    let s = str_chars(code);
    let n = s.len();
    proof {
        assert(s@.subrange(0, n as int) =~= s@);
    }
    if chars_eq(&s, 0, n, "ArrowUp") || chars_eq(&s, 0, n, "KeyW") {
        Some(HandsetKey::Up)
    } else if chars_eq(&s, 0, n, "ArrowDown") || chars_eq(&s, 0, n, "KeyS") {
        Some(HandsetKey::Down)
    } else if chars_eq(&s, 0, n, "ArrowLeft") || chars_eq(&s, 0, n, "KeyA") {
        Some(HandsetKey::Left)
    } else if chars_eq(&s, 0, n, "ArrowRight") || chars_eq(&s, 0, n, "KeyD") {
        Some(HandsetKey::Right)
    } else if chars_eq(&s, 0, n, "Enter") || chars_eq(&s, 0, n, "Space") || chars_eq(&s, 0, n, "NumpadEnter")
        || chars_eq(&s, 0, n, "KeyX") {
        Some(HandsetKey::Fire)
    } else if chars_eq(&s, 0, n, "F1") || chars_eq(&s, 0, n, "KeyQ") {
        Some(HandsetKey::SoftLeft)
    } else if chars_eq(&s, 0, n, "F2") || chars_eq(&s, 0, n, "KeyE") {
        Some(HandsetKey::SoftRight)
    } else if chars_eq(&s, 0, n, "KeyR") || chars_eq(&s, 0, n, "NumpadMultiply") {
        Some(HandsetKey::Star)
    } else if chars_eq(&s, 0, n, "KeyF") {
        Some(HandsetKey::Pound)
    } else if n == 6 && chars_eq(&s, 0, 5, "Digit") {
        digit_key(s[5])
    } else if n == 7 && chars_eq(&s, 0, 6, "Numpad") {
        digit_key(s[6])
    } else {
        None
    }
}

/// The raw code a browser key delivers on a device whose keys `profile`
/// codes.
pub fn raw_code(code: &str, profile: &InputFragment) -> (r: Option<i32>)
    ensures
        r == (match browser_key_spec(code@) {
            Some(key) => key_code_spec(*profile, key),
            None => None,
        }),
{
    match handset_key(code) {
        Some(key) => profile.key_code(key),
        None => None,
    }
}

} // verus!
