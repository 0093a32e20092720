//! Nokia-specific handset behavior. Nothing in the MIDP runtime implicitly
//! selects it.

use vstd::prelude::*;
use crate::device::{game_action_spec, key_code_spec, HandsetKey, InputFragment};

verus! {

pub const UP: i32 = -1;
pub const DOWN: i32 = -2;
pub const LEFT: i32 = -3;
pub const RIGHT: i32 = -4;
pub const FIRE: i32 = -5;
pub const SOFT_LEFT: i32 = -6;
pub const SOFT_RIGHT: i32 = -7;
pub const STAR: i32 = 42;
pub const POUND: i32 = 35;

/// The raw code of digit key `n`: ASCII `'0' + n`.
pub open spec fn digit_spec(n: u8) -> Option<i32> {
    if n <= 9 { Some((48 + n) as i32) } else { None }
}

pub fn digit(n: u8) -> (r: Option<i32>)
    ensures
        r == digit_spec(n),
{
    if n <= 9 { Some(48 + n as i32) } else { None }
}

/// The raw code a Nokia handset sends for a key.
pub open spec fn nokia_key_code(key: HandsetKey) -> Option<i32> {
    match key {
        HandsetKey::Up => Some(UP),
        HandsetKey::Down => Some(DOWN),
        HandsetKey::Left => Some(LEFT),
        HandsetKey::Right => Some(RIGHT),
        HandsetKey::Fire => Some(FIRE),
        HandsetKey::SoftLeft => Some(SOFT_LEFT),
        HandsetKey::SoftRight => Some(SOFT_RIGHT),
        HandsetKey::Digit(n) => digit_spec(n),
        HandsetKey::Star => Some(STAR),
        HandsetKey::Pound => Some(POUND),
    }
}

pub fn key_code(key: HandsetKey) -> (r: Option<i32>)
    ensures
        r == nokia_key_code(key),
{
    match key {
        HandsetKey::Up => Some(UP),
        HandsetKey::Down => Some(DOWN),
        HandsetKey::Left => Some(LEFT),
        HandsetKey::Right => Some(RIGHT),
        HandsetKey::Fire => Some(FIRE),
        HandsetKey::SoftLeft => Some(SOFT_LEFT),
        HandsetKey::SoftRight => Some(SOFT_RIGHT),
        HandsetKey::Digit(n) => digit(n),
        HandsetKey::Star => Some(STAR),
        HandsetKey::Pound => Some(POUND),
    }
}

/// Whether `code` is a code some Nokia key sends.
pub fn is_key_code(code: i32) -> (r: bool)
    ensures
        r == ((code == UP || code == DOWN || code == LEFT || code == RIGHT || code == FIRE || code == SOFT_LEFT
            || code == SOFT_RIGHT || code == STAR || code == POUND) || (48 <= code && code <= 57)),
{
    (code == UP || code == DOWN || code == LEFT || code == RIGHT || code == FIRE || code == SOFT_LEFT || code
        == SOFT_RIGHT || code == STAR || code == POUND) || (48 <= code && code <= 57)
}

/// Series 60 keypad semantics: navigation plus 2/8/4/6/5 as game actions.
pub open spec fn nokia_game_action(code: i32) -> i32 {
    if code == UP || code == 50 {
        1
    } else if code == LEFT || code == 52 {
        2
    } else if code == RIGHT || code == 54 {
        5
    } else if code == DOWN || code == 56 {
        6
    } else if code == FIRE || code == 53 {
        8
    } else {
        0
    }
}

pub fn game_action(code: i32) -> (r: i32)
    ensures
        r == nokia_game_action(code),
{
    if code == UP || code == 50 {
        1
    } else if code == LEFT || code == 52 {
        2
    } else if code == RIGHT || code == 54 {
        5
    } else if code == DOWN || code == 56 {
        6
    } else if code == FIRE || code == 53 {
        8
    } else {
        0
    }
}

/// Whether a fragment describes the Nokia keypad: the fixed codes, the ten
/// digits, and the 2/8/4/6/5 game-action tables.
pub open spec fn is_nokia_fragment(f: InputFragment) -> bool {
    &&& f.up == UP && f.down == DOWN && f.left == LEFT && f.right == RIGHT && f.fire == FIRE
    &&& f.soft_left == SOFT_LEFT && f.soft_right == SOFT_RIGHT && f.star == STAR && f.pound == POUND
    &&& f.digits@ == seq![48i32, 49, 50, 51, 52, 53, 54, 55, 56, 57]
    &&& f.game_action_up@ == seq![UP, 50]
    &&& f.game_action_down@ == seq![DOWN, 56]
    &&& f.game_action_left@ == seq![LEFT, 52]
    &&& f.game_action_right@ == seq![RIGHT, 54]
    &&& f.game_action_fire@ == seq![FIRE, 53]
    &&& !f.pointer_events && !f.pointer_motion_events && !f.repeat_events
}

/// A composable fragment for game-owned profile catalogs.
pub fn input_fragment() -> (r: InputFragment)
    ensures
        is_nokia_fragment(r),
{
    let r = InputFragment {
        up: UP,
        down: DOWN,
        left: LEFT,
        right: RIGHT,
        fire: FIRE,
        soft_left: SOFT_LEFT,
        soft_right: SOFT_RIGHT,
        star: STAR,
        pound: POUND,
        digits: [48, 49, 50, 51, 52, 53, 54, 55, 56, 57],
        game_action_up: vec![UP, 50],
        game_action_down: vec![DOWN, 56],
        game_action_left: vec![LEFT, 52],
        game_action_right: vec![RIGHT, 54],
        game_action_fire: vec![FIRE, 53],
        pointer_events: false,
        pointer_motion_events: false,
        repeat_events: false,
    };
    assert(r.digits@ =~= seq![48i32, 49, 50, 51, 52, 53, 54, 55, 56, 57]);
    r
}

/// The profile fragment and the hard-coded Nokia tables agree: on every
/// handset key the fragment sends the Nokia code, and on every raw code the
/// fragment's `getGameAction` is the Nokia one.
pub proof fn lemma_fragment_agrees(f: InputFragment, key: HandsetKey, code: i32)
    requires
        is_nokia_fragment(f),
    ensures
        key_code_spec(f, key) == nokia_key_code(key),
        game_action_spec(f, code) == nokia_game_action(code),
{
    assert(seq![UP, 50].contains(code) <==> (code == UP || code == 50)) by {
        if code == UP { assert(seq![UP, 50][0] == code); }
        if code == 50 { assert(seq![UP, 50][1] == code); }
    }
    assert(seq![LEFT, 52].contains(code) <==> (code == LEFT || code == 52)) by {
        if code == LEFT { assert(seq![LEFT, 52][0] == code); }
        if code == 52 { assert(seq![LEFT, 52][1] == code); }
    }
    assert(seq![RIGHT, 54].contains(code) <==> (code == RIGHT || code == 54)) by {
        if code == RIGHT { assert(seq![RIGHT, 54][0] == code); }
        if code == 54 { assert(seq![RIGHT, 54][1] == code); }
    }
    assert(seq![DOWN, 56].contains(code) <==> (code == DOWN || code == 56)) by {
        if code == DOWN { assert(seq![DOWN, 56][0] == code); }
        if code == 56 { assert(seq![DOWN, 56][1] == code); }
    }
    assert(seq![FIRE, 53].contains(code) <==> (code == FIRE || code == 53)) by {
        if code == FIRE { assert(seq![FIRE, 53][0] == code); }
        if code == 53 { assert(seq![FIRE, 53][1] == code); }
    }
}

} // verus!
