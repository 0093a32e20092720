//! The raw Nokia `FullCanvas` key vocabulary that `keyPressed(int)`
//! receives, plus a small [`Action`] name so config files can say `Fire`
//! instead of `-5`.
//!
//! These codes are game-agnostic and fixed by the phone's `FullCanvas`: the
//! four D-pad directions are `-1..=-4`, Fire/select is `-5`, the left and right
//! soft keys are `-6`/`-7`, the digits `0..=9` are their ASCII values `48..=57`,
//! and the two symbol keys `*` and `#` are `42` and `35`.

use vstd::prelude::*;
use crate::text::{canonical_name, canonicalize, chars_eq, is_ascii_digit, str_chars, trim, trim_bounds};

verus! {

/// D-pad up (`FullCanvas` `UP`).
pub const UP: i32 = -1;
/// D-pad down.
pub const DOWN: i32 = -2;
/// D-pad left.
pub const LEFT: i32 = -3;
/// D-pad right.
pub const RIGHT: i32 = -4;
/// Fire / centre-select.
pub const FIRE: i32 = -5;
/// Left soft key (`softkey1`).
pub const SOFT_LEFT: i32 = -6;
/// Right soft key (`softkey2`).
pub const SOFT_RIGHT: i32 = -7;
/// Star `*` key (ASCII `42`).
pub const STAR: i32 = 42;
/// Pound `#` key (ASCII `35`).
pub const POUND: i32 = 35;

/// The Nokia code for decimal digit `n` as its ASCII value (`0` -> `48` ..
/// `9` -> `57`). Returns `None` for `n > 9`.
pub fn digit(n: u8) -> (r: Option<i32>)
    ensures
        n <= 9 ==> r == Some((48 + n) as i32),
        n > 9 ==> r is None,
{
    if n <= 9 { Some(48 + n as i32) } else { None }
}

/// The fixed Nokia key vocabulary: the D-pad, Fire, the two soft keys, the
/// ten digits and `*`/`#`.
pub open spec fn in_vocabulary(code: i32) -> bool {
    (code == UP || code == DOWN || code == LEFT || code == RIGHT || code == FIRE || code == SOFT_LEFT || code
        == SOFT_RIGHT || code == STAR || code == POUND) || (48 <= code && code <= 57)
}

/// Is `code` a member of the fixed Nokia key vocabulary the device queue accepts?
pub fn is_vocabulary(code: i32) -> (r: bool)
    ensures
        r == in_vocabulary(code),
{
    (code == UP || code == DOWN || code == LEFT || code == RIGHT || code == FIRE || code == SOFT_LEFT || code
        == SOFT_RIGHT || code == STAR || code == POUND) || (48 <= code && code <= 57)
}

/// A human-readable name for a Nokia key, so a `[keymap]` table can bind a key to
/// `Fire` or `SoftLeft` rather than the raw `-5` / `-6`.
#[derive(Clone, Copy, Debug, PartialEq, Eq, Structural)]
pub enum Action {
    /// D-pad up.
    Up,
    /// D-pad down.
    Down,
    /// D-pad left.
    Left,
    /// D-pad right.
    Right,
    /// Fire / select.
    Fire,
    /// Left soft key.
    SoftLeft,
    /// Right soft key.
    SoftRight,
    /// A number key `0..=9` (the payload is always `<= 9` when parsed).
    Digit(u8),
    /// The `*` key.
    Star,
    /// The `#` key.
    Pound,
}

pub open spec fn action_code(a: Action) -> int {
    match a {
        Action::Up => UP as int,
        Action::Down => DOWN as int,
        Action::Left => LEFT as int,
        Action::Right => RIGHT as int,
        Action::Fire => FIRE as int,
        Action::SoftLeft => SOFT_LEFT as int,
        Action::SoftRight => SOFT_RIGHT as int,
        Action::Digit(n) => 48 + n,
        Action::Star => STAR as int,
        Action::Pound => POUND as int,
    }
}

/// The digit a one-character text spells, if it is an ASCII digit.
pub open spec fn one_digit_spec(s: Seq<char>) -> Option<u8> {
    if s.len() == 1 && is_ascii_digit(s[0]) {
        Some(((s[0] as u32) - 48) as u8)
    } else {
        None
    }
}

/// `s` without the literal `prefix`, if it starts with it.
pub open spec fn strip_prefix_spec(s: Seq<char>, prefix: Seq<char>) -> Option<Seq<char>> {
    if prefix.len() <= s.len() && s.subrange(0, prefix.len() as int) == prefix {
        Some(s.subrange(prefix.len() as int, s.len() as int))
    } else {
        None
    }
}

/// The digit after a literal prefix, if the rest is exactly one digit.
pub open spec fn prefixed_digit(s: Seq<char>, prefix: Seq<char>) -> Option<u8> {
    match strip_prefix_spec(s, prefix) {
        Some(rest) => one_digit_spec(rest),
        None => None,
    }
}

/// What an action name means: `*` and `#` as written (after trimming);
/// otherwise the canonical name as a digit (bare, `digit`-, `number`- or
/// `num`-prefixed) or one of the documented aliases.
pub open spec fn action_from_name_spec(name: Seq<char>) -> Option<Action> {
    let (from, to) = trim_bounds(name, 0, name.len() as int);
    let raw = name.subrange(from, to);
    let canon = canonical_name(raw);
    if raw == "*"@ {
        Some(Action::Star)
    } else if raw == "#"@ {
        Some(Action::Pound)
    } else if one_digit_spec(canon) is Some {
        Some(Action::Digit(one_digit_spec(canon)->0))
    } else if prefixed_digit(canon, "digit"@) is Some {
        Some(Action::Digit(prefixed_digit(canon, "digit"@)->0))
    } else if prefixed_digit(canon, "number"@) is Some {
        Some(Action::Digit(prefixed_digit(canon, "number"@)->0))
    } else if prefixed_digit(canon, "num"@) is Some {
        Some(Action::Digit(prefixed_digit(canon, "num"@)->0))
    } else if canon == "up"@ {
        Some(Action::Up)
    } else if canon == "down"@ {
        Some(Action::Down)
    } else if canon == "left"@ {
        Some(Action::Left)
    } else if canon == "right"@ {
        Some(Action::Right)
    } else if canon == "fire"@ || canon == "select"@ || canon == "ok"@ {
        Some(Action::Fire)
    } else if canon == "softleft"@ || canon == "softkey1"@ || canon == "soft1"@ || canon == "lsk"@ || canon
        == "leftsoft"@ {
        Some(Action::SoftLeft)
    } else if canon == "softright"@ || canon == "softkey2"@ || canon == "soft2"@ || canon == "rsk"@ || canon
        == "rightsoft"@ {
        Some(Action::SoftRight)
    } else if canon == "star"@ || canon == "asterisk"@ {
        Some(Action::Star)
    } else if canon == "pound"@ || canon == "hash"@ || canon == "hashtag"@ || canon == "octothorpe"@ {
        Some(Action::Pound)
    } else {
        None
    }
}

/// `Some(n)` iff `chars[from..to]` is exactly one ASCII decimal digit.
pub fn one_digit(chars: &[char], from: usize, to: usize) -> (r: Option<u8>)
    requires
        from <= to <= chars@.len(),
    ensures
        r == one_digit_spec(chars@.subrange(from as int, to as int)),
{
    if to - from == 1 && '0' <= chars[from] && chars[from] <= '9' {
        Some((chars[from] as u32 - 48) as u8)
    } else {
        None
    }
}

/// Whether `chars[from..]` starts with `prefix`; the offset past it if so.
pub fn strip_prefix(chars: &[char], from: usize, prefix: &str) -> (r: Option<usize>)
    requires
        from <= chars@.len(),
    ensures
        match strip_prefix_spec(chars@.subrange(from as int, chars@.len() as int), prefix@) {
            Some(rest) => r matches Some(at) && from <= at <= chars@.len() && rest == chars@.subrange(
                at as int,
                chars@.len() as int,
            ),
            None => r is None,
        },
{
    let n = prefix.unicode_len();
    if n > chars.len() - from {
        return None;
    }
    let ok = chars_eq(chars, from, from + n, prefix);
    proof {
        let s = chars@.subrange(from as int, chars@.len() as int);
        assert(s.subrange(0, n as int) =~= chars@.subrange(from as int, from + n));
        assert(s.subrange(n as int, s.len() as int) =~= chars@.subrange(from + n, chars@.len() as int));
    }
    if ok { Some(from + n) } else { None }
}

impl Action {
    /// The raw Nokia code this action delivers.
    pub fn nokia_code(self) -> (r: i32)
        requires
            self matches Action::Digit(n) ==> n <= 9,
        ensures
            r == action_code(self),
    {
        match self {
            Action::Up => UP,
            Action::Down => DOWN,
            Action::Left => LEFT,
            Action::Right => RIGHT,
            Action::Fire => FIRE,
            Action::SoftLeft => SOFT_LEFT,
            Action::SoftRight => SOFT_RIGHT,
            Action::Digit(n) => 48 + n as i32,
            Action::Star => STAR,
            Action::Pound => POUND,
        }
    }

    /// Parse an action name (case-insensitive, `_`/`-`/spaces ignored):
    ///
    /// - `up` / `down` / `left` / `right`
    /// - `fire` / `select` / `ok`
    /// - `softleft` / `soft_left` / `softkey1` / `soft1` / `lsk` / `leftsoft`
    /// - `softright` / `soft_right` / `softkey2` / `soft2` / `rsk` / `rightsoft`
    /// - a digit: `3`, `digit3`, `num3`, `number3`
    /// - `star` / `asterisk` / `*`
    /// - `pound` / `hash` / `#`
    ///
    /// Returns `None` for anything else.
    pub fn from_name(name: &str) -> (r: Option<Action>)
        ensures
            r == action_from_name_spec(name@),
            r matches Some(Action::Digit(n)) ==> n <= 9,
    {
        let chars = str_chars(name);
        proof {
            assert(chars@.subrange(0, chars@.len() as int) =~= name@);
        }
        Self::from_chars(&chars, 0, chars.len())
    }

    /// [`from_name`](Self::from_name) on `chars[from..to]`.
    pub fn from_chars(chars: &[char], from: usize, to: usize) -> (r: Option<Action>)
        requires
            from <= to <= chars@.len(),
        ensures
            r == action_from_name_spec(chars@.subrange(from as int, to as int)),
            r matches Some(Action::Digit(n)) ==> n <= 9,
    {
        let ghost name = chars@.subrange(from as int, to as int);
        let (start, end) = trim(chars, from, to);
        proof {
            assert(name.subrange(0, name.len() as int) =~= chars@.subrange(from as int, to as int));
            crate::text::lemma_trim_shift(chars@, from as int, to as int);
            assert(name.subrange(start - from, end - from) =~= chars@.subrange(start as int, end as int));
        }
        if chars_eq(chars, start, end, "*") {
            return Some(Action::Star);
        }
        if chars_eq(chars, start, end, "#") {
            return Some(Action::Pound);
        }
        let canon = canonicalize(chars, start, end);
        let len = canon.len();
        if let Some(n) = one_digit(&canon, 0, len) {
            proof { assert(canon@.subrange(0, len as int) =~= canon@); }
            return Some(Action::Digit(n));
        }
        proof { assert(canon@.subrange(0, len as int) =~= canon@); }
        if let Some(at) = strip_prefix(&canon, 0, "digit") {
            if let Some(n) = one_digit(&canon, at, len) {
                return Some(Action::Digit(n));
            }
        }
        if let Some(at) = strip_prefix(&canon, 0, "number") {
            if let Some(n) = one_digit(&canon, at, len) {
                return Some(Action::Digit(n));
            }
        }
        if let Some(at) = strip_prefix(&canon, 0, "num") {
            if let Some(n) = one_digit(&canon, at, len) {
                return Some(Action::Digit(n));
            }
        }
        if chars_eq(&canon, 0, len, "up") {
            Some(Action::Up)
        } else if chars_eq(&canon, 0, len, "down") {
            Some(Action::Down)
        } else if chars_eq(&canon, 0, len, "left") {
            Some(Action::Left)
        } else if chars_eq(&canon, 0, len, "right") {
            Some(Action::Right)
        } else if chars_eq(&canon, 0, len, "fire") || chars_eq(&canon, 0, len, "select") || chars_eq(
            &canon,
            0,
            len,
            "ok",
        ) {
            Some(Action::Fire)
        } else if chars_eq(&canon, 0, len, "softleft") || chars_eq(&canon, 0, len, "softkey1") || chars_eq(
            &canon,
            0,
            len,
            "soft1",
        ) || chars_eq(&canon, 0, len, "lsk") || chars_eq(&canon, 0, len, "leftsoft") {
            Some(Action::SoftLeft)
        } else if chars_eq(&canon, 0, len, "softright") || chars_eq(&canon, 0, len, "softkey2") || chars_eq(
            &canon,
            0,
            len,
            "soft2",
        ) || chars_eq(&canon, 0, len, "rsk") || chars_eq(&canon, 0, len, "rightsoft") {
            Some(Action::SoftRight)
        } else if chars_eq(&canon, 0, len, "star") || chars_eq(&canon, 0, len, "asterisk") {
            Some(Action::Star)
        } else if chars_eq(&canon, 0, len, "pound") || chars_eq(&canon, 0, len, "hash") || chars_eq(
            &canon,
            0,
            len,
            "hashtag",
        ) || chars_eq(&canon, 0, len, "octothorpe") {
            Some(Action::Pound)
        } else {
            None
        }
    }
}


/// The four direction names and `fire` mean their keys: any name that,
/// once trimmed, is not `*` or `#` and whose canonical form (case and
/// `_`/`-`/space folded away) is `up`, `down`, `left`, `right` or `fire`
/// decodes to the action whose Nokia code is `UP`, `DOWN`, `LEFT`, `RIGHT`
/// or `FIRE` respectively.
pub proof fn lemma_direction_names(name: Seq<char>)
    ensures
        ({
            let (from, to) = trim_bounds(name, 0, name.len() as int);
            let raw = name.subrange(from, to);
            let canon = canonical_name(raw);
            raw != "*"@ && raw != "#"@ ==> {
                &&& canon == "up"@ ==> action_from_name_spec(name) == Some(Action::Up) && action_code(Action::Up) == UP
                &&& canon == "down"@ ==> action_from_name_spec(name) == Some(Action::Down) && action_code(Action::Down) == DOWN
                &&& canon == "left"@ ==> action_from_name_spec(name) == Some(Action::Left) && action_code(Action::Left) == LEFT
                &&& canon == "right"@ ==> action_from_name_spec(name) == Some(Action::Right) && action_code(Action::Right) == RIGHT
                &&& canon == "fire"@ ==> action_from_name_spec(name) == Some(Action::Fire) && action_code(Action::Fire) == FIRE
            }
        }),
{
    reveal_strlit("up");
    reveal_strlit("down");
    reveal_strlit("left");
    reveal_strlit("right");
    reveal_strlit("fire");
    reveal_strlit("digit");
    reveal_strlit("number");
    reveal_strlit("num");
    reveal_strlit("*");
    reveal_strlit("#");
    let (from, to) = trim_bounds(name, 0, name.len() as int);
    let raw = name.subrange(from, to);
    let canon = canonical_name(raw);
    if canon == "up"@ || canon == "down"@ || canon == "left"@ || canon == "right"@ || canon == "fire"@ {
        assert(canon.len() >= 2);
        assert(one_digit_spec(canon) is None);
        assert(canon.len() < 5 ==> strip_prefix_spec(canon, "digit"@) is None);
        assert(canon.len() == 5 ==> canon[0] != 'd');
        assert(canon.len() == 5 ==> canon.subrange(0, 5)[0] == canon[0] && "digit"@[0] == 'd');
        assert(canon.len() == 5 ==> canon.subrange(0, 5) != "digit"@);
        assert(prefixed_digit(canon, "digit"@) is None);
        assert(prefixed_digit(canon, "number"@) is None);
        assert(canon.len() >= 3 ==> canon[0] != 'n');
        assert(canon.len() >= 3 ==> canon.subrange(0, 3)[0] == canon[0] && "num"@[0] == 'n');
        assert(canon.len() >= 3 ==> canon.subrange(0, 3) != "num"@);
        assert(prefixed_digit(canon, "num"@) is None);
    }
}


/// The documented aliases mean their keys: any name that, once trimmed, is
/// not `*` or `#` and whose canonical form is `fire`, `select` or `ok`
/// decodes to Fire; `softleft`, `softkey1`, `soft1`, `lsk` or `leftsoft` to
/// the left soft key; `softright`, `softkey2`, `soft2`, `rsk` or `rightsoft`
/// to the right soft key; `star` or `asterisk` to `*`; and `pound`, `hash`,
/// `hashtag` or `octothorpe` to `#`, each with its Nokia code.
pub proof fn lemma_key_alias_names(name: Seq<char>)
    ensures
        ({
            let (from, to) = trim_bounds(name, 0, name.len() as int);
            let raw = name.subrange(from, to);
            let canon = canonical_name(raw);
            raw != "*"@ && raw != "#"@ ==> {
                &&& (canon == "fire"@ || canon == "select"@ || canon == "ok"@) ==> action_from_name_spec(name) == Some(Action::Fire) && action_code(Action::Fire) == FIRE
                &&& (canon == "softleft"@ || canon == "softkey1"@ || canon == "soft1"@ || canon == "lsk"@ || canon == "leftsoft"@) ==> action_from_name_spec(name) == Some(Action::SoftLeft) && action_code(Action::SoftLeft) == SOFT_LEFT
                &&& (canon == "softright"@ || canon == "softkey2"@ || canon == "soft2"@ || canon == "rsk"@ || canon == "rightsoft"@) ==> action_from_name_spec(name) == Some(Action::SoftRight) && action_code(Action::SoftRight) == SOFT_RIGHT
                &&& (canon == "star"@ || canon == "asterisk"@) ==> action_from_name_spec(name) == Some(Action::Star) && action_code(Action::Star) == STAR
                &&& (canon == "pound"@ || canon == "hash"@ || canon == "hashtag"@ || canon == "octothorpe"@) ==> action_from_name_spec(name) == Some(Action::Pound) && action_code(Action::Pound) == POUND
            }
        }),
{
    reveal_strlit("#");
    reveal_strlit("*");
    reveal_strlit("asterisk");
    reveal_strlit("digit");
    reveal_strlit("down");
    reveal_strlit("fire");
    reveal_strlit("hash");
    reveal_strlit("hashtag");
    reveal_strlit("left");
    reveal_strlit("leftsoft");
    reveal_strlit("lsk");
    reveal_strlit("num");
    reveal_strlit("number");
    reveal_strlit("octothorpe");
    reveal_strlit("ok");
    reveal_strlit("pound");
    reveal_strlit("right");
    reveal_strlit("rightsoft");
    reveal_strlit("rsk");
    reveal_strlit("select");
    reveal_strlit("soft1");
    reveal_strlit("soft2");
    reveal_strlit("softkey1");
    reveal_strlit("softkey2");
    reveal_strlit("softleft");
    reveal_strlit("softright");
    reveal_strlit("star");
    reveal_strlit("up");
    let (from, to) = trim_bounds(name, 0, name.len() as int);
    let raw = name.subrange(from, to);
    let canon = canonical_name(raw);
    if canon == "fire"@ || canon == "select"@ || canon == "ok"@ || canon == "softleft"@ || canon == "softkey1"@ || canon == "soft1"@ || canon == "lsk"@ || canon == "leftsoft"@ || canon == "softright"@ || canon == "softkey2"@ || canon == "soft2"@ || canon == "rsk"@ || canon == "rightsoft"@ || canon == "star"@ || canon == "asterisk"@ || canon == "pound"@ || canon == "hash"@ || canon == "hashtag"@ || canon == "octothorpe"@ {
        assert(canon.len() >= 2);
        assert(canon[0] != 'd' && canon[0] != 'n');
        assert(one_digit_spec(canon) is None);
        assert(canon.len() >= 5 ==> canon.subrange(0, 5)[0] == canon[0] && "digit"@[0] == 'd');
        assert(prefixed_digit(canon, "digit"@) is None);
        assert(canon.len() >= 6 ==> canon.subrange(0, 6)[0] == canon[0] && "number"@[0] == 'n');
        assert(prefixed_digit(canon, "number"@) is None);
        assert(canon.len() >= 3 ==> canon.subrange(0, 3)[0] == canon[0] && "num"@[0] == 'n');
        assert(prefixed_digit(canon, "num"@) is None);
        if canon == "fire"@ {
            assert(canon[0] == 'f' && "down"@[0] == 'd');
            assert(canon[0] == 'f' && "left"@[0] == 'l');
        }
        if canon == "select"@ {

        }
        if canon == "ok"@ {
            assert(canon[0] == 'o' && "up"@[0] == 'u');
        }
        if canon == "softleft"@ {

        }
        if canon == "softkey1"@ {
            assert(canon[4] == 'k' && "softleft"@[4] == 'l');
        }
        if canon == "soft1"@ {
            assert(canon[0] == 's' && "right"@[0] == 'r');
        }
        if canon == "lsk"@ {

        }
        if canon == "leftsoft"@ {
            assert(canon[0] == 'l' && "softleft"@[0] == 's');
            assert(canon[0] == 'l' && "softkey1"@[0] == 's');
        }
        if canon == "softright"@ {

        }
        if canon == "softkey2"@ {
            assert(canon[4] == 'k' && "softleft"@[4] == 'l');
            assert(canon[7] == '2' && "softkey1"@[7] == '1');
            assert(canon[0] == 's' && "leftsoft"@[0] == 'l');
        }
        if canon == "soft2"@ {
            assert(canon[0] == 's' && "right"@[0] == 'r');
            assert(canon[4] == '2' && "soft1"@[4] == '1');
        }
        if canon == "rsk"@ {
            assert(canon[0] == 'r' && "lsk"@[0] == 'l');
        }
        if canon == "rightsoft"@ {
            assert(canon[0] == 'r' && "softright"@[0] == 's');
        }
        if canon == "star"@ {
            assert(canon[0] == 's' && "down"@[0] == 'd');
            assert(canon[0] == 's' && "left"@[0] == 'l');
            assert(canon[0] == 's' && "fire"@[0] == 'f');
        }
        if canon == "asterisk"@ {
            assert(canon[0] == 'a' && "softleft"@[0] == 's');
            assert(canon[0] == 'a' && "softkey1"@[0] == 's');
            assert(canon[0] == 'a' && "leftsoft"@[0] == 'l');
            assert(canon[0] == 'a' && "softkey2"@[0] == 's');
        }
        if canon == "pound"@ {
            assert(canon[0] == 'p' && "right"@[0] == 'r');
            assert(canon[0] == 'p' && "soft1"@[0] == 's');
            assert(canon[0] == 'p' && "soft2"@[0] == 's');
        }
        if canon == "hash"@ {
            assert(canon[0] == 'h' && "down"@[0] == 'd');
            assert(canon[0] == 'h' && "left"@[0] == 'l');
            assert(canon[0] == 'h' && "fire"@[0] == 'f');
            assert(canon[0] == 'h' && "star"@[0] == 's');
        }
        if canon == "hashtag"@ {

        }
        if canon == "octothorpe"@ {

        }
    }
}

/// A canonical name that is one ASCII digit, bare or after `digit`,
/// `number` or `num`, decodes to that digit key, whose Nokia code is the
/// digit's ASCII value.
pub proof fn lemma_digit_names(name: Seq<char>, d: char)
    requires
        '0' <= d <= '9',
    ensures
        ({
            let (from, to) = trim_bounds(name, 0, name.len() as int);
            let raw = name.subrange(from, to);
            let canon = canonical_name(raw);
            raw != "*"@ && raw != "#"@ ==> {
                &&& canon == seq![d] ==> action_from_name_spec(name) == Some(Action::Digit(((d as u32) - 48) as u8))
                &&& canon == "digit"@ + seq![d] ==> action_from_name_spec(name) == Some(Action::Digit(((d as u32) - 48) as u8))
                &&& canon == "number"@ + seq![d] ==> action_from_name_spec(name) == Some(Action::Digit(((d as u32) - 48) as u8))
                &&& canon == "num"@ + seq![d] ==> action_from_name_spec(name) == Some(Action::Digit(((d as u32) - 48) as u8))
                &&& action_code(Action::Digit(((d as u32) - 48) as u8)) == d as u32
            }
        }),
{
    reveal_strlit("digit");
    reveal_strlit("number");
    reveal_strlit("num");
    reveal_strlit("*");
    reveal_strlit("#");
    let (from, to) = trim_bounds(name, 0, name.len() as int);
    let raw = name.subrange(from, to);
    let canon = canonical_name(raw);
    if canon == "digit"@ + seq![d] {
        assert(canon.subrange(0, 5) =~= "digit"@);
        assert(canon.subrange(5, 6) =~= seq![d]);
    }
    if canon == "number"@ + seq![d] {
        assert(canon.len() == 7);
        assert(canon.subrange(0, 5)[0] == 'n');
        assert(canon.subrange(0, 6) =~= "number"@);
        assert(canon.subrange(6, 7) =~= seq![d]);
    }
    if canon == "num"@ + seq![d] {
        assert(canon.len() == 4);
        assert(canon.subrange(0, 3) =~= "num"@);
        assert(canon.subrange(3, 4) =~= seq![d]);
    }
}

} // verus!
